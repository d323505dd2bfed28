use vstd::prelude::*;
use base64::Engine;
use sha3::Digest;

verus! {

/// Scratch memory of the equix solver, owned by one worker at a time.
#[verifier::external_type_specification]
#[verifier::external_body]
pub struct ExSolverMemory(drillx::equix::SolverMemory);

/// A point in time read from the monotonic clock.
#[verifier::external_type_specification]
#[verifier::external_body]
pub struct ExInstant(std::time::Instant);

/// What the equix solver finds for a 40-byte seed: `None` where no solver
/// program can be built for the seed, else the solutions as 16-byte digests.
pub uninterp spec fn equix_solutions(seed: Seq<u8>) -> Option<Seq<Seq<u8>>>;

/// The Keccak-256 digest of a byte string.
pub uninterp spec fn keccak256_of(data: Seq<u8>) -> Seq<u8>;

/// The standard (padded) base64 text of a byte string.
pub uninterp spec fn base64_encoding(bytes: Seq<u8>) -> Seq<char>;

/// The bytes that a standard base64 text decodes to, `None` where it is malformed.
pub uninterp spec fn base64_decoding(text: Seq<char>) -> Option<Seq<u8>>;

/// Number of leading zero bits of one byte.
pub open spec fn byte_leading_zeros(b: u8) -> int {
    if b >= 128 {
        0
    } else if b >= 64 {
        1
    } else if b >= 32 {
        2
    } else if b >= 16 {
        3
    } else if b >= 8 {
        4
    } else if b >= 4 {
        5
    } else if b >= 2 {
        6
    } else if b >= 1 {
        7
    } else {
        8
    }
}

/// Number of leading zero bits of a byte string read most significant bit first.
pub open spec fn leading_zero_bits(s: Seq<u8>) -> int
    decreases s.len(),
{
    if s.len() == 0 {
        0
    } else if s[0] == 0 {
        8 + leading_zero_bits(s.drop_first())
    } else {
        byte_leading_zeros(s[0])
    }
}

/// Relies on drillx::seed: the challenge followed by the nonce.
pub assume_specification[ drillx::seed ](challenge: &[u8; 32], nonce: &[u8; 8]) -> (r: [u8; 40])
    ensures
        r@ == challenge@ + nonce@,
;

/// Relies on drillx::difficulty: the number of leading zero bits of the hash.
pub assume_specification[ drillx::difficulty ](hash: [u8; 32]) -> (r: u32)
    ensures
        r == leading_zero_bits(hash@),
;

/// Relies on equix::SolverMemory::new: fresh scratch memory for the solver.
pub assume_specification[ drillx::equix::SolverMemory::new ]() -> drillx::equix::SolverMemory;

/// Relies on equix's EquiXBuilder::build (compiled where possible, else
/// interpreted) and EquiX::solve_with_memory: the solutions for the seed, at
/// most 8 (the capacity of equix's SolutionArray), as bytes; `None` where the
/// builder rejects the seed. The memory is scratch space only.
#[verifier::external_body]
pub(crate) fn solve_seed(memory: &mut drillx::equix::SolverMemory, seed: &[u8; 40]) -> (r: Option<Vec<[u8; 16]>>)
    ensures
        r is None <==> equix_solutions(seed@) is None,
        r is Some ==> equix_solutions(seed@) == Some(r->Some_0@.map_values(|d: [u8; 16]| d@)),
        r is Some ==> r->Some_0@.len() <= 8,
{
    let built = drillx::equix::EquiXBuilder::new()
        .runtime(drillx::equix::RuntimeOption::TryCompile)
        .build(seed);
    match built {
        Ok(equix) => Some(equix.solve_with_memory(memory).iter().map(|s| s.to_bytes()).collect()),
        Err(_) => None,
    }
}

/// Relies on sha3::Keccak256 (through Digest::digest): the Keccak-256 digest of the data.
#[verifier::external_body]
pub(crate) fn keccak256(data: &Vec<u8>) -> (r: [u8; 32])
    ensures
        r@ == keccak256_of(data@),
{
    sha3::Keccak256::digest(data.as_slice()).into()
}

/// Relies on base64's STANDARD engine encode: the padded base64 text of the bytes.
#[verifier::external_body]
pub(crate) fn encode_base64(bytes: &[u8]) -> (r: String)
    ensures
        r@ == base64_encoding(bytes@),
{
    base64::engine::general_purpose::STANDARD.encode(bytes)
}

/// Relies on base64's STANDARD engine decode: the decoded bytes, `None` on malformed input.
#[verifier::external_body]
pub(crate) fn decode_base64(text: &str) -> (r: Option<Vec<u8>>)
    ensures
        r is None <==> base64_decoding(text@) is None,
        r is Some ==> base64_decoding(text@) == Some(r->Some_0@),
{
    base64::engine::general_purpose::STANDARD.decode(text).ok()
}

/// Relies on std's Instant::now: the current reading of the monotonic clock.
pub assume_specification[ std::time::Instant::now ]() -> std::time::Instant;

/// Relies on std's Instant::elapsed: the time passed since the reading.
pub assume_specification[ std::time::Instant::elapsed ](since: &std::time::Instant) -> core::time::Duration;

/// Relies on std's Duration::as_secs: the whole seconds of a duration.
pub assume_specification[ core::time::Duration::as_secs ](d: &core::time::Duration) -> u64;

} // verus!

//! Random payloads, places, orders and names.

use rand::seq::SliceRandom;
use vstd::prelude::*;

verus! {

/// `rand::fill` overwrites the bytes of a slice with random ones.
#[verifier::external_body]
fn fill(bytes: &mut Vec<u8>)
    ensures
        final(bytes)@.len() == old(bytes)@.len(),
{
    rand::fill(&mut bytes[..]);
}

/// Random bytes.
pub fn random_payload(len: usize) -> (r: Vec<u8>)
    requires
        len <= isize::MAX,
    ensures
        r@.len() == len,
{
    let mut bytes: Vec<u8> = vec![0u8; len];
    fill(&mut bytes);
    bytes
}

/// `rand::random_range` on the numbers from zero to `max` gives one of them.
#[verifier::external_body]
pub(crate) fn random_up_to(max: u64) -> (r: u64)
    ensures
        r <= max,
{
    rand::random_range(0..=max)
}

/// `SliceRandom::shuffle` puts the items of a slice in a random order; each stays as often as it
/// was there.
#[verifier::external_body]
pub(crate) fn shuffle(items: &mut Vec<(usize, u64)>)
    ensures
        final(items)@.to_multiset() == old(items)@.to_multiset(),
{
    items.shuffle(&mut rand::rng());
}

pub open spec fn lower_hex_digit(c: char) -> bool {
    ('0' <= c && c <= '9') || ('a' <= c && c <= 'f')
}

/// Whether a text is a random identifier in its simple form: lower case hexadecimal digits, with
/// the version and the variant in their places.
pub open spec fn random_id(text: Seq<char>) -> bool {
    &&& text.len() == 32
    &&& forall|i: int| 0 <= i < 32 ==> lower_hex_digit(#[trigger] text[i])
    &&& text[12] == '4'
    &&& text[16] == '8' || text[16] == '9' || text[16] == 'a' || text[16] == 'b'
}

/// `Uuid::new_v4` in its simple form.
#[verifier::external_body]
pub(crate) fn new_id() -> (r: String)
    ensures
        random_id(r@),
{
    uuid::Uuid::new_v4().simple().to_string()
}

/// The name of a directory for one run of the disk benchmark.
pub fn run_directory() -> (r: String)
    ensures
        random_id(r@),
{
    new_id()
}

/// The name of a bucket for one run of a benchmark.
pub fn bucket_name() -> (r: String)
    ensures
        r@.len() == "benchmark-"@.len() + 32,
        r@.take("benchmark-"@.len() as int) == "benchmark-"@,
        random_id(r@.skip("benchmark-"@.len() as int)),
{
    let id = new_id();
    let r = "benchmark-".to_owned().concat(id.as_str());
    assert(r@.take("benchmark-"@.len() as int) =~= "benchmark-"@);
    assert(r@.skip("benchmark-"@.len() as int) =~= id@);
    r
}

} // verus!

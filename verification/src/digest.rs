//! SHA-256 through the `sha2` crate, fed incrementally, and the lower-case
//! hexadecimal form in which snapshots record digests.

use vstd::prelude::*;

use crate::text::push_char;

verus! {

#[verifier::external_type_specification]
#[verifier::external_body]
pub struct ExSha256(sha2::Sha256);

/// The name of the SHA-256 digest of a byte sequence, as `sha2` computes it.
pub uninterp spec fn sha256_of(data: Seq<u8>) -> Seq<u8>;

/// An incremental SHA-256 computation together with the bytes fed so far.
pub(crate) struct Sha256Stream {
    hasher: sha2::Sha256,
    fed: Ghost<Seq<u8>>,
}

impl Sha256Stream {
    /// The bytes fed so far.
    pub(crate) closed spec fn fed(&self) -> Seq<u8> {
        self.fed@
    }

    /// `sha2::Sha256::new()`: a hasher that has been fed nothing.
    #[verifier::external_body]
    pub(crate) fn new() -> (r: Sha256Stream)
        ensures
            r.fed() == Seq::<u8>::empty(),
    {
        Sha256Stream { hasher: <sha2::Sha256 as sha2::Digest>::new(), fed: Ghost(Seq::empty()) }
    }

    /// `Digest::update`: feeds `data` after what was fed before.
    #[verifier::external_body]
    pub(crate) fn update(&mut self, data: &[u8])
        ensures
            final(self).fed() == old(self).fed() + data@,
    {
        sha2::Digest::update(&mut self.hasher, data);
    }

    /// `Digest::finalize`: the 32-byte digest of everything fed, which is the
    /// digest of those bytes taken at once.
    #[verifier::external_body]
    pub(crate) fn finalize(self) -> (r: Vec<u8>)
        ensures
            r@ == sha256_of(self.fed()),
            r@.len() == 32,
    {
        sha2::Digest::finalize(self.hasher).to_vec()
    }
}

/// The lower-case hexadecimal digit for a value below 16.
pub open spec fn hex_digit(v: u8) -> char {
    if v < 10 {
        ((v + 48) as u32) as char
    } else {
        ((v + 87) as u32) as char
    }
}

/// Two lower-case hexadecimal digits per byte, high nibble first.
pub open spec fn hex_lower(bytes: Seq<u8>) -> Seq<char>
    decreases bytes.len(),
{
    if bytes.len() == 0 {
        seq![]
    } else {
        hex_lower(bytes.drop_last()) + seq![
            hex_digit(bytes.last() / 16),
            hex_digit(bytes.last() % 16),
        ]
    }
}

fn hex_digit_exec(v: u8) -> (c: char)
    requires
        v < 16,
    ensures
        c == hex_digit(v),
{
    let code: u8 = if v < 10 {
        v + 48
    } else {
        v + 87
    };
    let c = code as char;
    assert(c as u32 == code);
    c
}

/// The lower-case hexadecimal text of a byte sequence.
pub fn to_hex(bytes: &[u8]) -> (r: String)
    ensures
        r@ == hex_lower(bytes@),
        r@.len() == 2 * bytes@.len(),
{
    let mut r = String::new();
    let mut i: usize = 0;
    while i < bytes.len()
        invariant
            i <= bytes@.len(),
            r@ == hex_lower(bytes@.take(i as int)),
            r@.len() == 2 * i,
        decreases bytes@.len() - i,
    {
        let b = bytes[i];
        push_char(&mut r, hex_digit_exec(b / 16));
        push_char(&mut r, hex_digit_exec(b % 16));
        proof {
            assert(bytes@.take(i + 1).drop_last() =~= bytes@.take(i as int));
            assert(r@ =~= hex_lower(bytes@.take(i + 1)));
        }
        i = i + 1;
    }
    proof {
        assert(bytes@.take(bytes@.len() as int) =~= bytes@);
    }
    r
}

} // verus!

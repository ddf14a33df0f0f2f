//! Process detection by name. The platform enumerates the running processes'
//! executable names (as UTF-16, the way Windows' Toolhelp snapshot gives
//! them); this module decides whether one of them is the process sought. It
//! never needs a handle to the process itself.

use vstd::prelude::*;

use crate::text::{eq_ascii_ci, eq_ignore_ascii_case, to_chars};

verus! {

/// The replacement character that lossy decoding puts in place of an
/// unpaired surrogate.
pub const REPLACEMENT: char = '\u{FFFD}';

/// `char::from_u32`: the character with the given code point, or `None` for
/// a surrogate or a value beyond `U+10FFFF`, as std documents it.
#[verifier::external_body]
fn char_from_u32(u: u32) -> (r: Option<char>)
    ensures
        r == (if u <= 0xD7FF || (0xE000 <= u <= 0x10FFFF) {
            Some(u as char)
        } else {
            None
        }),
{
    char::from_u32(u)
}

pub open spec fn is_high_surrogate(u: u16) -> bool {
    0xD800 <= u <= 0xDBFF
}

pub open spec fn is_low_surrogate(u: u16) -> bool {
    0xDC00 <= u <= 0xDFFF
}

/// The code point a surrogate pair stands for.
pub open spec fn pair_code(hi: u16, lo: u16) -> int {
    0x10000 + (hi - 0xD800) * 0x400 + (lo - 0xDC00)
}

/// `String::from_utf16_lossy`: UTF-16 decoded from the front, a surrogate
/// pair to one character, any unpaired surrogate to U+FFFD.
pub open spec fn utf16_lossy(u: Seq<u16>) -> Seq<char>
    decreases u.len(),
{
    if u.len() == 0 {
        seq![]
    } else if !is_high_surrogate(u[0]) && !is_low_surrogate(u[0]) {
        seq![u[0] as char] + utf16_lossy(u.drop_first())
    } else if is_high_surrogate(u[0]) && u.len() >= 2 && is_low_surrogate(u[1]) {
        seq![pair_code(u[0], u[1]) as char] + utf16_lossy(u.subrange(2, u.len() as int))
    } else {
        seq![REPLACEMENT] + utf16_lossy(u.drop_first())
    }
}

/// The units before the first NUL (all of them when there is none).
pub open spec fn until_nul(u: Seq<u16>) -> Seq<u16>
    decreases u.len(),
{
    if u.len() == 0 {
        u
    } else if u[0] == 0 {
        seq![]
    } else {
        seq![u[0]] + until_nul(u.drop_first())
    }
}

proof fn lemma_until_nul_prefix(u: Seq<u16>)
    ensures
        until_nul(u).len() <= u.len(),
        until_nul(u) == u.take(until_nul(u).len() as int),
        forall|i: int| 0 <= i < until_nul(u).len() ==> #[trigger] u[i] != 0,
        until_nul(u).len() < u.len() ==> u[until_nul(u).len() as int] == 0,
    decreases u.len(),
{
    if u.len() > 0 && u[0] != 0 {
        let t = u.drop_first();
        lemma_until_nul_prefix(t);
        let n: int = until_nul(t).len() as int;
        assert(until_nul(u) =~= u.take(n + 1)) by {
            assert forall|i: int| 0 <= i < n + 1 implies until_nul(u)[i] == u.take(n + 1)[i] by {
                if i > 0 {
                    assert(until_nul(t)[i - 1] == t[i - 1]);
                }
            }
        }
        assert forall|i: int| 0 <= i < until_nul(u).len() implies #[trigger] u[i] != 0 by {
            if i > 0 {
                assert(u[i] == t[i - 1]);
            }
        }
    } else if u.len() > 0 {
        assert(until_nul(u) =~= u.take(0));
    } else {
        assert(until_nul(u) =~= u.take(0));
    }
}

/// How many units come before the first NUL.
fn nul_position(u: &[u16]) -> (r: usize)
    ensures
        r <= u@.len(),
        r == until_nul(u@).len(),
        u@.take(r as int) == until_nul(u@),
{
    proof {
        lemma_until_nul_prefix(u@);
    }
    let mut i: usize = 0;
    while i < u.len() && u[i] != 0
        invariant
            i <= u@.len(),
            i <= until_nul(u@).len(),
            until_nul(u@).len() <= u@.len(),
            until_nul(u@) == u@.take(until_nul(u@).len() as int),
            forall|j: int| 0 <= j < until_nul(u@).len() ==> #[trigger] u@[j] != 0,
            until_nul(u@).len() < u@.len() ==> u@[until_nul(u@).len() as int] == 0,
        decreases u@.len() - i,
    {
        i = i + 1;
    }
    i
}

/// Decodes `u[from..to]` lossily, as [`utf16_lossy`] does.
fn decode_lossy(u: &[u16], to: usize) -> (r: Vec<char>)
    requires
        to <= u@.len(),
    ensures
        r@ == utf16_lossy(u@.take(to as int)),
{
    let ghost whole = u@.take(to as int);
    let mut out: Vec<char> = Vec::new();
    let mut i: usize = 0;
    proof {
        assert(whole.subrange(0, whole.len() as int) =~= whole);
    }
    while i < to
        invariant
            to <= u@.len(),
            i <= to,
            whole == u@.take(to as int),
            out@ + utf16_lossy(whole.subrange(i as int, to as int)) == utf16_lossy(whole),
        decreases to - i,
    {
        let ghost rest = whole.subrange(i as int, to as int);
        let a = u[i];
        assert(rest[0] == a);
        if a < 0xD800 || a > 0xDFFF {
            let c = match char_from_u32(a as u32) {
                Some(c) => c,
                None => REPLACEMENT,
            };
            assert(rest.drop_first() =~= whole.subrange(i + 1, to as int));
            assert(out@.push(c) + utf16_lossy(rest.drop_first()) =~= out@ + utf16_lossy(rest));
            out.push(c);
            i = i + 1;
        } else if a <= 0xDBFF && i + 1 < to && 0xDC00 <= u[i + 1] && u[i + 1] <= 0xDFFF {
            let b = u[i + 1];
            assert(rest[1] == b);
            let code: u32 = 0x10000 + ((a as u32) - 0xD800) * 0x400 + ((b as u32) - 0xDC00);
            assert(code == pair_code(a, b));
            let c = match char_from_u32(code) {
                Some(c) => c,
                None => REPLACEMENT,
            };
            assert(rest.subrange(2, rest.len() as int) =~= whole.subrange(i + 2, to as int));
            assert(out@.push(c) + utf16_lossy(rest.subrange(2, rest.len() as int)) =~= out@
                + utf16_lossy(rest));
            out.push(c);
            i = i + 2;
        } else {
            assert(rest.drop_first() =~= whole.subrange(i + 1, to as int));
            assert(out@.push(REPLACEMENT) + utf16_lossy(rest.drop_first()) =~= out@ + utf16_lossy(
                rest,
            ));
            out.push(REPLACEMENT);
            i = i + 1;
        }
    }
    proof {
        assert(whole.subrange(to as int, to as int) =~= Seq::<u16>::empty());
        assert(out@ + utf16_lossy(Seq::<u16>::empty()) =~= out@);
    }
    out
}

/// A NUL-terminated UTF-16 executable name names `name`: the text before the
/// first NUL, decoded lossily, equals `name` up to ASCII case.
pub open spec fn wide_names(wide: Seq<u16>, name: Seq<char>) -> bool {
    eq_ascii_ci(utf16_lossy(until_nul(wide)), name)
}

/// Whether the UTF-16 name `wide` (NUL-terminated, or filling the buffer)
/// is `name`, ignoring ASCII case.
pub fn wide_eq_ignore_case(wide: &[u16], name: &str) -> (r: bool)
    ensures
        r == wide_names(wide@, name@),
{
    let end = nul_position(wide);
    let s = decode_lossy(wide, end);
    let n = to_chars(name);
    eq_ignore_ascii_case(s.as_slice(), n.as_slice())
}

/// Whether a process with the executable name `exe_name` (such as
/// `eldenring.exe`) is among the running processes' names, ignoring ASCII
/// case.
pub fn process_running(process_names: &[Vec<u16>], exe_name: &str) -> (r: bool)
    ensures
        r == exists|i: int|
            0 <= i < process_names@.len() && wide_names(#[trigger] process_names@[i]@, exe_name@),
{
    let mut i: usize = 0;
    while i < process_names.len()
        invariant
            i <= process_names@.len(),
            forall|j: int| 0 <= j < i ==> !wide_names(#[trigger] process_names@[j]@, exe_name@),
        decreases process_names@.len() - i,
    {
        if wide_eq_ignore_case(process_names[i].as_slice(), exe_name) {
            return true;
        }
        i = i + 1;
    }
    false
}

} // verus!

//! The text that goes to the clipboard: UTF-16 code units ending in a NUL,
//! the form that `CF_UNICODETEXT` takes.

use vstd::prelude::*;

verus! {

broadcast use vstd::string::group_string_axioms;

/// The UTF-16 code units of one character: the scalar value itself below
/// `0x10000`, a surrogate pair above it.
pub open spec fn utf16_units(c: char) -> Seq<u16> {
    let u = c as u32;
    if u < 0x10000 {
        seq![u as u16]
    } else {
        let v = u - 0x10000;
        seq![(0xD800 + v / 0x400) as u16, (0xDC00 + v % 0x400) as u16]
    }
}

/// The UTF-16 encoding of a sequence of characters.
pub open spec fn utf16_of(s: Seq<char>) -> Seq<u16>
    decreases s.len(),
{
    if s.len() == 0 {
        Seq::empty()
    } else {
        utf16_of(s.drop_last()) + utf16_units(s.last())
    }
}

/// Text of the Basic Multilingual Plane, such as a code of ASCII digits, is
/// copied one code unit per character, each unit the character's value.
pub proof fn bmp_text_is_one_unit_per_char(s: Seq<char>)
    requires
        forall|i: int| 0 <= i < s.len() ==> (#[trigger] s[i] as u32) < 0x10000,
    ensures
        utf16_of(s).len() == s.len(),
        forall|i: int| 0 <= i < s.len() ==> #[trigger] utf16_of(s)[i] as u32 == s[i] as u32,
    decreases s.len(),
{
    if s.len() > 0 {
        let p = s.drop_last();
        assert forall|i: int| 0 <= i < p.len() implies (#[trigger] p[i] as u32) < 0x10000 by {
            assert(p[i] == s[i]);
        }
        bmp_text_is_one_unit_per_char(p);
        assert forall|i: int| 0 <= i < s.len() implies #[trigger] utf16_of(s)[i] as u32 == s[i] as u32 by {
            if i < p.len() {
                assert(utf16_of(s)[i] == utf16_of(p)[i]);
                assert(p[i] == s[i]);
            }
        }
    }
}

/// `text` in UTF-16 followed by a NUL terminator.
pub fn wide_nul_terminated(text: &str) -> (res: Vec<u16>)
    ensures
        res@ == utf16_of(text@).push(0),
{
    let mut res: Vec<u16> = Vec::new();
    assert(text@.take(text@.len() as int) == text@);
    for c in it: text.chars()
        invariant
            it.seq() == text@,
            res@ == utf16_of(it.seq().take(it.index() as int)),
    {
        let ghost before = it.seq().take(it.index() as int);
        let u = c as u32;
        if u < 0x10000 {
            res.push(u as u16);
        } else {
            let v = u - 0x10000;
            res.push((0xD800 + v / 0x400) as u16);
            res.push((0xDC00 + v % 0x400) as u16);
        }
        proof {
            let after = it.seq().take(it.index() + 1);
            assert(after.drop_last() == before);
            assert(after.last() == c);
        }
    }
    res.push(0);
    res
}

} // verus!

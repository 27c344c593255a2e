//! Trimming and joining text.
use vstd::prelude::*;
use vstd::string::{StrSliceExecFns, StringExecFns};
use crate::paths::chars_of;

verus! {

/// The characters with the Unicode `White_Space` property.
pub open spec fn is_white_space(c: char) -> bool {
    let u = c as u32;
    (0x9 <= u <= 0xd) || u == 0x20 || u == 0x85 || u == 0xa0 || u == 0x1680 || (0x2000 <= u
        <= 0x200a) || u == 0x2028 || u == 0x2029 || u == 0x202f || u == 0x205f || u == 0x3000
}

pub fn white_space(c: char) -> (r: bool)
    ensures
        r == is_white_space(c),
{
    let u = c as u32;
    (0x9 <= u && u <= 0xd) || u == 0x20 || u == 0x85 || u == 0xa0 || u == 0x1680 || (0x2000 <= u
        && u <= 0x200a) || u == 0x2028 || u == 0x2029 || u == 0x202f || u == 0x205f || u == 0x3000
}

/// `s` without its leading white space.
pub open spec fn strip_leading(s: Seq<char>) -> Seq<char>
    decreases s.len(),
{
    if s.len() > 0 && is_white_space(s[0]) {
        strip_leading(s.drop_first())
    } else {
        s
    }
}

/// `s` without its trailing white space.
pub open spec fn strip_trailing(s: Seq<char>) -> Seq<char>
    decreases s.len(),
{
    if s.len() > 0 && is_white_space(s.last()) {
        strip_trailing(s.drop_last())
    } else {
        s
    }
}

/// `s` without white space at either end.
pub open spec fn trimmed(s: Seq<char>) -> Seq<char> {
    strip_trailing(strip_leading(s))
}

/// The number of white-space characters that `s` starts with.
fn leading_white_space(v: &Vec<char>) -> (lo: usize)
    ensures
        lo <= v.len(),
        strip_leading(v@) == v@.skip(lo as int),
{
    let mut lo: usize = 0;
    assert(v@.skip(0) =~= v@);
    while lo < v.len() && white_space(v[lo])
        invariant
            lo <= v.len(),
            strip_leading(v@) == strip_leading(v@.skip(lo as int)),
        decreases v.len() - lo,
    {
        assert(v@.skip(lo as int).drop_first() =~= v@.skip(lo + 1));
        lo = lo + 1;
    }
    lo
}

/// The end of `v[lo..]` once its trailing white space is cut.
fn end_without_trailing(v: &Vec<char>, lo: usize) -> (hi: usize)
    requires
        lo <= v.len(),
    ensures
        lo <= hi <= v.len(),
        strip_trailing(v@.skip(lo as int)) == v@.subrange(lo as int, hi as int),
{
    let mut hi: usize = v.len();
    assert(v@.skip(lo as int) =~= v@.subrange(lo as int, v.len() as int));
    while hi > lo && white_space(v[hi - 1])
        invariant
            lo <= hi <= v.len(),
            strip_trailing(v@.skip(lo as int)) == strip_trailing(v@.subrange(lo as int, hi as int)),
        decreases hi,
    {
        assert(v@.subrange(lo as int, hi as int).drop_last() =~= v@.subrange(lo as int, hi - 1));
        hi = hi - 1;
    }
    hi
}

/// `s` without white space at either end.
pub fn trim(s: &str) -> (r: String)
    ensures
        r@ == trimmed(s@),
{
    let v = chars_of(s);
    let lo = leading_white_space(&v);
    let hi = end_without_trailing(&v, lo);
    String::from_str(s.substring_char(lo, hi))
}

/// `s` without its trailing white space.
pub fn trim_end(s: &str) -> (r: String)
    ensures
        r@ == strip_trailing(s@),
{
    let v = chars_of(s);
    let hi = end_without_trailing(&v, 0);
    assert(v@.skip(0) =~= v@);
    String::from_str(s.substring_char(0, hi))
}

/// The texts of `ts` in order, with one space between neighbours.
pub open spec fn space_joined(ts: Seq<Seq<char>>) -> Seq<char>
    decreases ts.len(),
{
    if ts.len() == 0 {
        Seq::empty()
    } else if ts.len() == 1 {
        ts[0]
    } else {
        space_joined(ts.drop_last()) + seq![' '] + ts.last()
    }
}

/// The texts of `ts` in order, with one space between neighbours.
pub fn join_with_spaces(ts: &Vec<String>) -> (r: String)
    ensures
        r@ == space_joined(crate::types::strings_view(ts@)),
{
    let ghost tv = crate::types::strings_view(ts@);
    let mut r = String::new();
    let mut i: usize = 0;
    while i < ts.len()
        invariant
            tv == crate::types::strings_view(ts@),
            i <= ts.len(),
            r@ == space_joined(tv.take(i as int)),
        decreases ts.len() - i,
    {
        assert(tv.take(i + 1).drop_last() =~= tv.take(i as int));
        if i > 0 {
            r.append(" ");
            proof {
                reveal_strlit(" ");
            }
        } else {
            assert(tv.take(1) =~= seq![tv[0]]);
        }
        r.append(ts[i].as_str());
        i = i + 1;
    }
    assert(tv.take(ts.len() as int) =~= tv);
    r
}

} // verus!

//! Variant names derived from type texts and from field names.
//!
//! A type text gives its union variant by uppercasing its first character and
//! then dropping every character that is not an ASCII letter or digit, the
//! first one included.
//!
//! A field name gives its variant by uppercasing its first character and then,
//! twice, joining at the first underscore: the underscore is removed and the
//! character found at its byte offset is uppercased. Only two underscores are
//! ever joined, and the offset is a byte offset used as a character position,
//! so names with more underscores or with wide characters keep that shape.

use vstd::prelude::*;
use crate::text::{
    ascii_alnum, char_width, chars_of, is_ascii_alnum, string_of, uppercase, uppercase_of,
    utf8_len,
};

verus! {

/// The characters of `s` that are ASCII letters or digits, in order.
pub open spec fn alnum_only(s: Seq<char>) -> Seq<char>
    decreases s.len(),
{
    if s.len() == 0 {
        s
    } else if is_ascii_alnum(s.last()) {
        alnum_only(s.drop_last()).push(s.last())
    } else {
        alnum_only(s.drop_last())
    }
}

/// The variant name of the type written `s`.
pub open spec fn type_variant(s: Seq<char>) -> Seq<char> {
    alnum_only(capitalized(s))
}

/// `s` with its first character uppercased.
pub open spec fn capitalized(s: Seq<char>) -> Seq<char> {
    if s.len() == 0 {
        s
    } else {
        uppercase_of(s[0]) + s.drop_first()
    }
}

/// `k` is the position of the first underscore of `t`.
pub open spec fn is_first_underscore(t: Seq<char>, k: int) -> bool {
    &&& 0 <= k < t.len()
    &&& t[k] == '_'
    &&& forall|j: int| 0 <= j < k ==> t[j] != '_'
}

/// `u` with the character at position `b`, if there is one, replaced by its
/// uppercase mapping.
pub open spec fn upper_at(u: Seq<char>, b: int) -> Seq<char> {
    if 0 <= b < u.len() {
        u.take(b) + uppercase_of(u[b]) + u.skip(b + 1)
    } else {
        u
    }
}

/// One join at the first underscore of `t`: the underscore is removed and the
/// character at the underscore's byte offset is uppercased.
pub open spec fn join_first_underscore(t: Seq<char>) -> Seq<char> {
    if exists|k: int| is_first_underscore(t, k) {
        let k = choose|k: int| is_first_underscore(t, k);
        upper_at(t.remove(k), utf8_len(t.take(k)) as int)
    } else {
        t
    }
}

/// The variant name of the field named `s`.
pub open spec fn field_variant(s: Seq<char>) -> Seq<char> {
    join_first_underscore(join_first_underscore(capitalized(s)))
}

fn keep_alnum(s: &Vec<char>, start: usize, out: &mut Vec<char>)
    requires
        start <= s@.len(),
    ensures
        final(out)@ == old(out)@ + alnum_only(s@.skip(start as int)),
{
    let ghost base = out@;
    let ghost tail = s@.skip(start as int);
    let mut i: usize = start;
    while i < s.len()
        invariant
            start <= i <= s@.len(),
            tail == s@.skip(start as int),
            out@ == base + alnum_only(tail.take(i - start)),
        decreases s@.len() - i,
    {
        let c = s[i];
        assert(tail.take(i + 1 - start).drop_last() =~= tail.take(i - start));
        if ascii_alnum(c) {
            out.push(c);
        }
        i = i + 1;
    }
    assert(tail.take(i - start) =~= tail);
}

fn capitalize(cs: &Vec<char>) -> (r: Vec<char>)
    ensures
        r@ == capitalized(cs@),
{
    if cs.len() == 0 {
        return Vec::new();
    }
    let mut r = chars_of(uppercase(cs[0]).as_str());
    let ghost head = r@;
    let mut i: usize = 1;
    while i < cs.len()
        invariant
            1 <= i <= cs@.len(),
            r@ == head + cs@.subrange(1, i as int),
        decreases cs@.len() - i,
    {
        r.push(cs[i]);
        i = i + 1;
        assert(r@ =~= head + cs@.subrange(1, i as int));
    }
    assert(cs@.subrange(1, i as int) =~= cs@.drop_first());
    r
}

/// The variant name that the by-type union gives to the type written `ty`.
pub fn type_variant_name(ty: &str) -> (r: String)
    ensures
        r@ == type_variant(ty@),
{
    let capital = capitalize(&chars_of(ty));
    let mut kept: Vec<char> = Vec::new();
    keep_alnum(&capital, 0, &mut kept);
    assert(capital@.skip(0) =~= capital@);
    assert(kept@ =~= alnum_only(capital@));
    string_of(&kept)
}

fn upper_at_position(u: &Vec<char>, b: usize) -> (r: Vec<char>)
    ensures
        r@ == upper_at(u@, b as int),
{
    if b >= u.len() {
        return u.clone();
    }
    let mut r: Vec<char> = Vec::new();
    let mut i: usize = 0;
    while i < b
        invariant
            b < u@.len(),
            i <= b,
            r@ == u@.take(i as int),
        decreases b - i,
    {
        r.push(u[i]);
        i = i + 1;
        assert(r@ =~= u@.take(i as int));
    }
    let up = chars_of(uppercase(u[b]).as_str());
    let mut m: usize = 0;
    while m < up.len()
        invariant
            b < u@.len(),
            m <= up@.len(),
            r@ == u@.take(b as int) + up@.take(m as int),
        decreases up@.len() - m,
    {
        r.push(up[m]);
        m = m + 1;
        assert(r@ =~= u@.take(b as int) + up@.take(m as int));
    }
    assert(up@.take(m as int) =~= up@);
    let ghost mid = r@;
    i = b + 1;
    while i < u.len()
        invariant
            b < i <= u@.len(),
            r@ == mid + u@.subrange(b + 1, i as int),
        decreases u@.len() - i,
    {
        r.push(u[i]);
        i = i + 1;
        assert(r@ =~= mid + u@.subrange(b + 1, i as int));
    }
    assert(u@.subrange(b + 1, i as int) =~= u@.skip(b + 1));
    r
}

fn join_at_first_underscore(t: Vec<char>) -> (r: Vec<char>)
    ensures
        r@ == join_first_underscore(t@),
{
    let mut k: usize = 0;
    while k < t.len() && t[k] != '_'
        invariant
            k <= t@.len(),
            forall|j: int| 0 <= j < k ==> t@[j] != '_',
        decreases t@.len() - k,
    {
        k = k + 1;
    }
    if k == t.len() {
        assert(!exists|x: int| is_first_underscore(t@, x));
        return t;
    }
    assert(is_first_underscore(t@, k as int));
    assert(forall|x: int| is_first_underscore(t@, x) ==> x == k);
    // the byte offset of the underscore, saturated at the length left after removing it
    let cap: usize = t.len() - 1;
    let mut b: usize = 0;
    let mut j: usize = 0;
    while j < k
        invariant
            k < t@.len(),
            cap == t@.len() - 1,
            j <= k,
            b as int == if utf8_len(t@.take(j as int)) < cap {
                utf8_len(t@.take(j as int)) as int
            } else {
                cap as int
            },
        decreases k - j,
    {
        let w = char_width(t[j]);
        assert(t@.take(j + 1).drop_last() =~= t@.take(j as int));
        if b < cap {
            if w <= cap - b {
                b = b + w;
            } else {
                b = cap;
            }
        }
        j = j + 1;
    }
    let mut u = t;
    u.remove(k);
    upper_at_position(&u, b)
}

/// The variant name that the by-field union gives to the field named `name`.
pub fn field_variant_name(name: &str) -> (r: String)
    ensures
        r@ == field_variant(name@),
{
    let capital = capitalize(&chars_of(name));
    let once = join_at_first_underscore(capital);
    string_of(&join_at_first_underscore(once))
}

} // verus!

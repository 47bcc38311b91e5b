//! Character-level helpers shared by the sanitizer and the renderer.
use vstd::prelude::*;

verus! {

/// The characters of `s`, in order.
/// Relies on `str::chars` collected into a `Vec`: the vector holds the chars of the string.
#[verifier::external_body]
pub fn chars_of(s: &str) -> (r: Vec<char>)
    ensures
        r@ == s@,
{
    s.chars().collect()
}

/// The string made of the characters of `v`, in order.
/// Relies on collecting a `char` iterator into a `String`: the string holds exactly those chars.
#[verifier::external_body]
pub fn string_of(v: &Vec<char>) -> (r: String)
    ensures
        r@ == v@,
{
    v.iter().collect()
}

/// Applies `f` to every character of `s` and concatenates the pieces.
pub open spec fn flat_map_chars(s: Seq<char>, f: spec_fn(char) -> Seq<char>) -> Seq<char>
    decreases s.len(),
{
    if s.len() == 0 {
        Seq::empty()
    } else {
        f(s[0]) + flat_map_chars(s.drop_first(), f)
    }
}

pub proof fn lemma_flat_map_concat(a: Seq<char>, b: Seq<char>, f: spec_fn(char) -> Seq<char>)
    ensures
        flat_map_chars(a + b, f) == flat_map_chars(a, f) + flat_map_chars(b, f),
    decreases a.len(),
{
    if a.len() == 0 {
        assert(a + b =~= b);
    } else {
        assert((a + b).drop_first() =~= a.drop_first() + b);
        lemma_flat_map_concat(a.drop_first(), b, f);
        assert(flat_map_chars(a + b, f) =~= flat_map_chars(a, f) + flat_map_chars(b, f));
    }
}

pub proof fn lemma_flat_map_push(a: Seq<char>, c: char, f: spec_fn(char) -> Seq<char>)
    ensures
        flat_map_chars(a.push(c), f) == flat_map_chars(a, f) + f(c),
{
    assert(a.push(c) =~= a + seq![c]);
    lemma_flat_map_concat(a, seq![c], f);
    assert(seq![c].drop_first() =~= Seq::<char>::empty());
    assert(flat_map_chars(Seq::<char>::empty(), f) == Seq::<char>::empty());
    assert(flat_map_chars(seq![c], f) == f(c) + flat_map_chars(Seq::<char>::empty(), f));
    assert(flat_map_chars(seq![c], f) =~= f(c));
}

/// Appends the characters of the literal `s` to `out`.
pub fn push_str_chars(out: &mut Vec<char>, s: &str)
    ensures
        final(out)@ == old(out)@ + s@,
{
    let mut t = chars_of(s);
    out.append(&mut t);
}

} // verus!

//! Conversions between text and character vectors.
//!
//! The lexer and the splitters of this crate work over `Vec<char>`,
//! whose view is the same `Seq<char>` a `&str` views to.
use vstd::prelude::*;
use vstd::std_specs::iter::IteratorSpec;

verus! {

broadcast use vstd::string::next_postcondition, vstd::string::axiom_spec_iter;

/// Relies on `String::push`: appends one character.
pub assume_specification[ std::string::String::push ](s: &mut String, c: char)
    ensures
        final(s)@ == old(s)@.push(c),
;

/// What `char::is_alphabetic` returns: whether the character has the
/// Unicode `Alphabetic` property.  In the ASCII range those are
/// exactly the letters.
pub uninterp spec fn is_alpha(c: char) -> bool;

/// Relies on `char::is_alphabetic`, a function of the character alone;
/// in the ASCII range it holds exactly of `a`-`z` and `A`-`Z`.
#[verifier::external_body]
pub fn char_is_alphabetic(c: char) -> (r: bool)
    ensures
        r == is_alpha(c),
        c < 128 as char ==> r == ('a' <= c <= 'z' || 'A' <= c <= 'Z'),
{
    c.is_alphabetic()
}

/// The characters of a string slice, in order.
pub fn chars_of(s: &str) -> (r: Vec<char>)
    ensures
        r@ == s@,
{
    let mut it = s.chars();
    let mut v: Vec<char> = Vec::new();
    loop
        invariant
            it.obeys_prophetic_iter_laws(),
            it.decrease() is Some,
            v@ + it.remaining() =~= s@,
        decreases it.decrease()->0,
    {
        let ghost prev = it.remaining();
        match it.next() {
            Some(c) => {
                proof {
                    assert(v@.push(c) + prev.drop_first() =~= v@ + prev);
                }
                v.push(c);
            },
            None => {
                proof {
                    assert(v@ =~= s@);
                }
                return v;
            },
        }
    }
}

/// The string holding the characters `chars[from .. to]`.
pub fn string_of_range(chars: &Vec<char>, from: usize, to: usize) -> (r: String)
    requires
        from <= to <= chars@.len(),
    ensures
        r@ == chars@.subrange(from as int, to as int),
{
    let mut s = String::new();
    let mut i: usize = from;
    while i < to
        invariant
            from <= i <= to <= chars@.len(),
            s@ =~= chars@.subrange(from as int, i as int),
        decreases to - i,
    {
        let ghost before = s@;
        s.push(chars[i]);
        proof {
            assert(before.push(chars@[i as int]) =~= chars@.subrange(from as int, i as int + 1));
        }
        i = i + 1;
    }
    s
}

/// The string holding all of `chars`.
pub fn string_of(chars: &Vec<char>) -> (r: String)
    ensures
        r@ == chars@,
{
    let r = string_of_range(chars, 0, chars.len());
    proof {
        assert(chars@.subrange(0, chars@.len() as int) =~= chars@);
    }
    r
}


/// Whether `a` begins with `b`.
#[verifier::loop_isolation(false)]
pub fn str_starts_with(a: &str, b: &str) -> (r: bool)
    ensures
        r == (a@.len() >= b@.len() && a@.subrange(0, b@.len() as int) == b@),
{
    let ca = chars_of(a);
    let cb = chars_of(b);
    if cb.len() > ca.len() {
        return false;
    }
    let mut k: usize = 0;
    while k < cb.len()
        invariant
            k <= cb@.len() <= ca@.len(),
            forall|q: int| 0 <= q < k ==> ca@[q] == cb@[q],
        decreases cb.len() - k,
    {
        if ca[k] != cb[k] {
            return false;
        }
        k = k + 1;
    }
    proof {
        assert(a@.subrange(0, b@.len() as int) =~= b@);
    }
    true
}

} // verus!

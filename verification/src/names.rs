//! Identifier case transforms used to derive capability-interface and
//! conversion-method names, together with the crate's trusted text
//! primitives (character classification, string building, string equality).

use vstd::prelude::*;

verus! {

/// The Unicode "Uppercase" property of a character, as `char::is_uppercase`
/// reports it; left abstract, and pinned down on ASCII by `is_upper`.
pub uninterp spec fn char_has_uppercase_property(c: char) -> bool;

/// Whether a character counts as uppercase: on ASCII exactly `'A'..='Z'`,
/// elsewhere the abstract Unicode "Uppercase" property.
pub open spec fn is_upper(c: char) -> bool {
    if (c as u32) < 128 {
        'A' <= c && c <= 'Z'
    } else {
        char_has_uppercase_property(c)
    }
}

/// Relies on `char::is_uppercase`: the result is a function of the character
/// alone (the Unicode "Uppercase" property), and on ASCII characters the
/// property holds exactly of `'A'..='Z'`.
#[verifier::external_body]
pub(crate) fn char_is_uppercase(c: char) -> (r: bool)
    ensures
        r == char_has_uppercase_property(c),
        r == is_upper(c),
{
    c.is_uppercase()
}

/// ASCII lowercasing: `'A'..='Z'` map to `'a'..='z'`, everything else is
/// unchanged.
pub open spec fn lower_char(c: char) -> char {
    if 'A' <= c && c <= 'Z' {
        (((c as u8) + 32) as char)
    } else {
        c
    }
}

/// ASCII uppercasing: `'a'..='z'` map to `'A'..='Z'`, everything else is
/// unchanged.
pub open spec fn upper_char(c: char) -> char {
    if 'a' <= c && c <= 'z' {
        (((c as u8) - 32) as char)
    } else {
        c
    }
}

fn to_lower_char(c: char) -> (r: char)
    ensures
        r == lower_char(c),
{
    let u: u32 = c as u32;
    if 65 <= u && u <= 90 {
        ((u as u8) + 32) as char
    } else {
        c
    }
}

fn to_upper_char(c: char) -> (r: char)
    ensures
        r == upper_char(c),
{
    let u: u32 = c as u32;
    if 97 <= u && u <= 122 {
        ((u as u8) - 32) as char
    } else {
        c
    }
}

/// Relies on `str::chars`: iterating a string slice yields exactly the
/// characters of its view, in order.
#[verifier::external_body]
pub(crate) fn chars_of(s: &str) -> (v: Vec<char>)
    ensures
        v@ == s@,
{
    s.chars().collect()
}

/// Relies on `String::push`: appends the given character to the end of the
/// string.
#[verifier::external_body]
pub(crate) fn string_push(s: &mut String, c: char)
    ensures
        final(s)@ == old(s)@.push(c),
{
    s.push(c);
}

/// Relies on `<str as PartialEq>::eq`: two string slices compare equal
/// exactly when their character sequences are equal.
#[verifier::external_body]
pub(crate) fn str_eq(a: &str, b: &str) -> (r: bool)
    ensures
        r == (a@ == b@),
{
    a == b
}

/// The contribution of one character to the snake-case form: every character
/// is lowercased, and an uppercase character that is not the first gets an
/// underscore inserted before it.
pub open spec fn snake_piece(c: char, first: bool) -> Seq<char> {
    if !first && is_upper(c) {
        seq!['_', lower_char(c)]
    } else {
        seq![lower_char(c)]
    }
}

/// The snake-case form of an identifier: each character lowercased, with an
/// underscore inserted before every uppercase character except a leading one.
pub open spec fn snake_of(s: Seq<char>) -> Seq<char>
    decreases s.len(),
{
    if s.len() == 0 {
        Seq::empty()
    } else {
        snake_of(s.drop_last()) + snake_piece(s.last(), s.len() == 1)
    }
}

/// The pascal-case form, processed front to back: underscores are dropped
/// and force the next character to be uppercased; `capitalize` says whether
/// the next literal character is at the start of a word.
pub open spec fn pascal_rec(s: Seq<char>, capitalize: bool) -> Seq<char>
    decreases s.len(),
{
    if s.len() == 0 {
        Seq::empty()
    } else if s[0] == '_' {
        pascal_rec(s.skip(1), true)
    } else {
        seq![if capitalize {
            upper_char(s[0])
        } else {
            s[0]
        }] + pascal_rec(s.skip(1), false)
    }
}

/// The pascal-case form of a snake-case identifier.
pub open spec fn pascal_of(s: Seq<char>) -> Seq<char> {
    pascal_rec(s, true)
}

/// Turn a pascal-case identifier into its snake-case form.
pub fn pascal_to_snake(s: &str) -> (r: String)
    ensures
        r@ == snake_of(s@),
{
    let cs = chars_of(s);
    let mut result = String::new();
    let mut i: usize = 0;
    while i < cs.len()
        invariant
            cs@ == s@,
            i <= cs.len(),
            result@ == snake_of(s@.take(i as int)),
        decreases cs.len() - i,
    {
        let c = cs[i];
        let ghost prev = result@;
        if i > 0 && char_is_uppercase(c) {
            string_push(&mut result, '_');
        }
        string_push(&mut result, to_lower_char(c));
        proof {
            let t1 = s@.take(i + 1int);
            assert(t1.drop_last() =~= s@.take(i as int));
            assert(t1.last() == c);
            assert(result@ =~= prev + snake_piece(c, i == 0));
        }
        i = i + 1;
    }
    proof {
        assert(s@.take(cs@.len() as int) =~= s@);
    }
    result
}

/// Turn a snake-case identifier into its pascal-case form.
pub fn snake_to_pascal(s: &str) -> (r: String)
    ensures
        r@ == pascal_of(s@),
{
    let cs = chars_of(s);
    let mut result = String::new();
    let mut capitalize = true;
    let mut i: usize = 0;
    proof {
        assert(s@.skip(0) =~= s@);
        assert(Seq::<char>::empty() + pascal_rec(s@, true) =~= pascal_rec(s@, true));
    }
    while i < cs.len()
        invariant
            cs@ == s@,
            i <= cs.len(),
            pascal_of(s@) == result@ + pascal_rec(s@.skip(i as int), capitalize),
        decreases cs.len() - i,
    {
        let c = cs[i];
        let ghost prev = result@;
        let ghost rest = s@.skip(i as int);
        proof {
            assert(rest[0] == c);
            assert(rest.skip(1) =~= s@.skip(i + 1int));
        }
        if c == '_' {
            capitalize = true;
        } else if capitalize {
            string_push(&mut result, to_upper_char(c));
            capitalize = false;
            proof {
                assert(prev + pascal_rec(rest, true) =~= result@ + pascal_rec(
                    s@.skip(i + 1int),
                    false,
                ));
            }
        } else {
            string_push(&mut result, c);
            proof {
                assert(prev + pascal_rec(rest, false) =~= result@ + pascal_rec(
                    s@.skip(i + 1int),
                    false,
                ));
            }
        }
        i = i + 1;
    }
    proof {
        assert(s@.skip(cs@.len() as int) =~= Seq::<char>::empty());
    }
    result
}

} // verus!

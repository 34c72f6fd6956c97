//! Transcoding between camelCase dataset property names and serialized
//! `data-*` attribute names, together with the validation guard applied when
//! a dataset property is written back to an attribute.
//!
//! The encoder prepends `data-` and rewrites every uppercase ASCII letter as
//! a hyphen followed by its lowercase equivalent.  The decoder strips the
//! prefix, rejects any remainder that still contains uppercase ASCII, and
//! rewrites each hyphen followed by a decodable lowercase letter back to the
//! uppercase form.  The decodable lowercase range is `'a'` through `'w'`:
//! deliberately narrower than the full alphabet, reproducing the historical
//! behaviour of the attribute reflection it models.

use vstd::prelude::*;

verus! {

/// The error of [`validate_property_name`]: writing the name back as an
/// attribute and reading it again would not return the same property name.
#[derive(Clone, Copy, Debug, PartialEq, Eq, Structural)]
pub struct MalformedNameError;

/// ASCII uppercase letters: the code points `'A'` through `'Z'`.
pub open spec fn spec_ascii_uppercase(c: char) -> bool {
    'A' <= c && c <= 'Z'
}

/// The lowercase letters the decoder folds back to uppercase: `'a'` through
/// `'w'`, excluding `'x'`, `'y'` and `'z'`.
pub open spec fn spec_decodable_lowercase(c: char) -> bool {
    'a' <= c && c <= 'w'
}

/// The full ASCII lowercase range `'a'` through `'z'`, as used by the
/// validation guard.
pub open spec fn spec_full_lowercase(c: char) -> bool {
    'a' <= c && c <= 'z'
}

/// The lowercase ASCII equivalent of an uppercase ASCII letter.
pub open spec fn spec_to_lower(c: char) -> char
    recommends
        spec_ascii_uppercase(c),
{
    (((c as u32) + 32) as u32) as char
}

/// The uppercase ASCII equivalent of a lowercase ASCII letter.
pub open spec fn spec_to_upper(c: char) -> char
    recommends
        spec_full_lowercase(c),
{
    (((c as u32) - 32) as u32) as char
}

/// True iff `c` is an ASCII uppercase letter.
pub fn is_ascii_uppercase(c: char) -> (r: bool)
    ensures
        r == spec_ascii_uppercase(c),
{
    'A' <= c && c <= 'Z'
}

/// True iff `c` is in the decoder's narrowed lowercase range `'a'..='w'`.
pub fn is_ascii_lowercase(c: char) -> (r: bool)
    ensures
        r == spec_decodable_lowercase(c),
{
    'a' <= c && c <= 'w'
}

/// Lowercase an uppercase ASCII letter.
fn to_lowercase_char(c: char) -> (r: char)
    requires
        spec_ascii_uppercase(c),
    ensures
        r == spec_to_lower(c),
{
    let code: u8 = c as u8;
    (code + 32) as char
}

/// Uppercase a lowercase ASCII letter.
fn to_uppercase_char(c: char) -> (r: char)
    requires
        spec_full_lowercase(c),
    ensures
        r == spec_to_upper(c),
{
    let code: u8 = c as u8;
    (code - 32) as char
}

/// Relies on `String::push`: appends the given character to the end of the
/// string.
#[verifier::external_body]
pub(crate) fn push_char(s: &mut String, c: char)
    ensures
        final(s)@ == old(s)@.push(c),
{
    s.push(c)
}

/// The serialized prefix that marks an attribute as a dataset entry.
pub open spec fn data_prefix() -> Seq<char> {
    seq!['d', 'a', 't', 'a', '-']
}

/// The encoder's rewriting of a property name, prefix excluded: each
/// uppercase ASCII letter becomes a hyphen followed by its lowercase
/// equivalent, every other character is kept.
pub open spec fn encode_chars(s: Seq<char>) -> Seq<char>
    decreases s.len(),
{
    if s.len() == 0 {
        Seq::empty()
    } else if spec_ascii_uppercase(s[0]) {
        seq!['-', spec_to_lower(s[0])] + encode_chars(s.drop_first())
    } else {
        seq![s[0]] + encode_chars(s.drop_first())
    }
}

/// The serialized attribute name of a dataset property name.
pub open spec fn encoded_attribute_name(s: Seq<char>) -> Seq<char> {
    data_prefix() + encode_chars(s)
}

/// True iff some character of `s` is an uppercase ASCII letter.
pub open spec fn has_ascii_uppercase(s: Seq<char>) -> bool {
    exists|i: int| 0 <= i < s.len() && spec_ascii_uppercase(s[i])
}

/// The decoder's rewriting of an attribute name, prefix already stripped.
/// A hyphen followed by a decodable lowercase letter becomes that letter's
/// uppercase form; a hyphen followed by any other character leaves both
/// unchanged; a trailing hyphen and all other characters are kept.
pub open spec fn decode_chars(s: Seq<char>) -> Seq<char>
    decreases s.len(),
{
    if s.len() == 0 {
        Seq::empty()
    } else if s[0] == '-' && s.len() >= 2 {
        if spec_decodable_lowercase(s[1]) {
            seq![spec_to_upper(s[1])] + decode_chars(s.skip(2))
        } else {
            seq![s[0], s[1]] + decode_chars(s.skip(2))
        }
    } else {
        seq![s[0]] + decode_chars(s.skip(1))
    }
}

/// The dataset property name of a serialized attribute name: present exactly
/// when the name starts with `data-` and the remainder holds no uppercase
/// ASCII letter.
pub open spec fn decoded_property_name(s: Seq<char>) -> Option<Seq<char>> {
    if s.len() >= 5 && s.subrange(0, 5) == data_prefix() && !has_ascii_uppercase(s.skip(5)) {
        Some(decode_chars(s.skip(5)))
    } else {
        None
    }
}

/// True iff the character immediately after the first hyphen of `s` exists
/// and is a full-range lowercase ASCII letter: such a name would not survive
/// a round trip through encoding and decoding.
pub open spec fn malformed_property_name(s: Seq<char>) -> bool
    decreases s.len(),
{
    if s.len() == 0 {
        false
    } else if s[0] == '-' {
        s.len() >= 2 && spec_full_lowercase(s[1])
    } else {
        malformed_property_name(s.drop_first())
    }
}

/// `encode_chars` distributes over concatenation.
proof fn lemma_encode_chars_add(a: Seq<char>, b: Seq<char>)
    ensures
        encode_chars(a + b) == encode_chars(a) + encode_chars(b),
    decreases a.len(),
{
    if a.len() == 0 {
        assert(a + b =~= b);
        assert(encode_chars(a) + encode_chars(b) =~= encode_chars(b));
    } else {
        assert((a + b).drop_first() =~= a.drop_first() + b);
        lemma_encode_chars_add(a.drop_first(), b);
        if spec_ascii_uppercase(a[0]) {
            assert(encode_chars(a + b) =~= encode_chars(a) + encode_chars(b));
        } else {
            assert(encode_chars(a + b) =~= encode_chars(a) + encode_chars(b));
        }
    }
}

/// Serialize a dataset property name as an attribute name: prepend `data-`
/// and rewrite each uppercase ASCII letter as a hyphen plus its lowercase
/// equivalent.  Total over all inputs.
pub fn encode_property_name(name: &str) -> (r: String)
    ensures
        r@ == encoded_attribute_name(name@),
{
    let n = name.unicode_len();
    let mut result = String::from_str("data-");
    proof {
        reveal_strlit("data-");
        assert(result@ =~= data_prefix());
        assert(name@.take(0) =~= Seq::<char>::empty());
    }
    let mut i: usize = 0;
    while i < n
        invariant
            i <= n,
            n == name@.len(),
            result@ == data_prefix() + encode_chars(name@.take(i as int)),
        decreases n - i,
    {
        let c = name.get_char(i);
        if is_ascii_uppercase(c) {
            push_char(&mut result, '-');
            push_char(&mut result, to_lowercase_char(c));
        } else {
            push_char(&mut result, c);
        }
        proof {
            reveal_with_fuel(encode_chars, 3);
            let done = name@.take(i as int);
            let one = seq![name@[i as int]];
            assert(name@.take(i + 1) =~= done + one);
            lemma_encode_chars_add(done, one);
            assert(one.drop_first() =~= Seq::<char>::empty());
            if spec_ascii_uppercase(name@[i as int]) {
                assert(encode_chars(one) =~= seq!['-', spec_to_lower(name@[i as int])]);
                assert(result@ =~= data_prefix() + encode_chars(name@.take(i + 1)));
            } else {
                assert(encode_chars(one) =~= seq![name@[i as int]]);
                assert(result@ =~= data_prefix() + encode_chars(name@.take(i + 1)));
            }
        }
        i = i + 1;
    }
    proof {
        assert(name@.take(n as int) =~= name@);
    }
    result
}

/// Read a serialized attribute name back as a dataset property name, or
/// report with `None` that the attribute is no dataset entry: the name lacks
/// the `data-` prefix, or its remainder contains uppercase ASCII.
pub fn decode_attribute_name(name: &str) -> (r: Option<String>)
    ensures
        match r {
            Some(p) => decoded_property_name(name@) == Some(p@),
            None => decoded_property_name(name@) is None,
        },
{
    let n = name.unicode_len();
    if n < 5 {
        return None;
    }
    let p0 = name.get_char(0);
    let p1 = name.get_char(1);
    let p2 = name.get_char(2);
    let p3 = name.get_char(3);
    let p4 = name.get_char(4);
    proof {
        assert(name@.subrange(0, 5)[0] == name@[0]);
        assert(name@.subrange(0, 5)[1] == name@[1]);
        assert(name@.subrange(0, 5)[2] == name@[2]);
        assert(name@.subrange(0, 5)[3] == name@[3]);
        assert(name@.subrange(0, 5)[4] == name@[4]);
    }
    if !(p0 == 'd' && p1 == 'a' && p2 == 't' && p3 == 'a' && p4 == '-') {
        return None;
    }
    proof {
        assert(name@.subrange(0, 5) =~= data_prefix());
    }
    let ghost rest = name@.skip(5);
    let mut i: usize = 5;
    while i < n
        invariant
            5 <= i <= n,
            n == name@.len(),
            rest == name@.skip(5),
            forall|j: int| 5 <= j < i ==> !spec_ascii_uppercase(name@[j]),
        decreases n - i,
    {
        if is_ascii_uppercase(name.get_char(i)) {
            proof {
                assert(rest[i - 5] == name@[i as int]);
                assert(has_ascii_uppercase(rest));
            }
            return None;
        }
        i = i + 1;
    }
    proof {
        assert forall|k: int| 0 <= k < rest.len() implies !spec_ascii_uppercase(rest[k]) by {
            assert(rest[k] == name@[k + 5]);
        }
        assert(!has_ascii_uppercase(rest));
    }
    let mut result = String::new();
    proof {
        assert(result@ + decode_chars(rest) =~= decode_chars(rest));
    }
    let mut i: usize = 5;
    while i < n
        invariant
            5 <= i <= n,
            n == name@.len(),
            decode_chars(rest) == result@ + decode_chars(name@.skip(i as int)),
            rest == name@.skip(5),
        decreases n - i,
    {
        let c = name.get_char(i);
        let ghost rem = name@.skip(i as int);
        proof {
            assert(rem[0] == name@[i as int]);
        }
        if c == '-' && i + 1 < n {
            let c2 = name.get_char(i + 1);
            proof {
                assert(rem[1] == name@[i + 1]);
                assert(rem.skip(2) =~= name@.skip(i + 2));
            }
            if is_ascii_lowercase(c2) {
                push_char(&mut result, to_uppercase_char(c2));
            } else {
                push_char(&mut result, c);
                push_char(&mut result, c2);
            }
            proof {
                assert(decode_chars(rest) =~= result@ + decode_chars(name@.skip(i + 2)));
            }
            i = i + 2;
        } else {
            proof {
                assert(rem.skip(1) =~= name@.skip(i + 1));
            }
            push_char(&mut result, c);
            proof {
                assert(decode_chars(rest) =~= result@ + decode_chars(name@.skip(i + 1)));
            }
            i = i + 1;
        }
    }
    proof {
        assert(name@.skip(n as int) =~= Seq::<char>::empty());
        assert(result@ =~= decode_chars(rest));
    }
    Some(result)
}

/// Check a dataset property name before it is written back as an attribute:
/// rejected with [`MalformedNameError`] exactly when the character right
/// after the name's first hyphen is a lowercase ASCII letter, since encoding
/// and then decoding such a name would not return it.
pub fn validate_property_name(name: &str) -> (r: Result<(), MalformedNameError>)
    ensures
        r is Err <==> malformed_property_name(name@),
{
    let n = name.unicode_len();
    proof {
        assert(name@.skip(0) =~= name@);
    }
    let mut i: usize = 0;
    while i < n
        invariant
            i <= n,
            n == name@.len(),
            malformed_property_name(name@) == malformed_property_name(name@.skip(i as int)),
        decreases n - i,
    {
        let c = name.get_char(i);
        let ghost rem = name@.skip(i as int);
        proof {
            assert(rem[0] == name@[i as int]);
        }
        if c == '-' {
            if i + 1 < n {
                let c2 = name.get_char(i + 1);
                proof {
                    assert(rem[1] == name@[i + 1]);
                }
                if c2 >= 'a' && c2 <= 'z' {
                    return Err(MalformedNameError);
                }
            }
            return Ok(());
        }
        proof {
            assert(rem.drop_first() =~= name@.skip(i + 1));
        }
        i = i + 1;
    }
    proof {
        assert(name@.skip(n as int) =~= Seq::<char>::empty());
    }
    Ok(())
}

/// True iff `s` holds no hyphen immediately followed by a decodable
/// lowercase letter, so the decoder folds nothing of `s` into uppercase.
pub open spec fn no_decodable_fold(s: Seq<char>) -> bool {
    forall|i: int|
        0 <= i < s.len() - 1 ==> !((#[trigger] s[i]) == '-' && spec_decodable_lowercase(s[i + 1]))
}

/// Encoding a string without uppercase ASCII letters changes nothing.
proof fn lemma_encode_no_uppercase(s: Seq<char>)
    requires
        !has_ascii_uppercase(s),
    ensures
        encode_chars(s) == s,
    decreases s.len(),
{
    if s.len() > 0 {
        assert(!spec_ascii_uppercase(s[0]));
        assert forall|i: int| 0 <= i < s.drop_first().len() implies !spec_ascii_uppercase(
            s.drop_first()[i],
        ) by {
            assert(s.drop_first()[i] == s[i + 1]);
        }
        lemma_encode_no_uppercase(s.drop_first());
        assert(encode_chars(s) =~= s);
    }
}

/// Decoding a string that holds no hyphen immediately followed by a
/// decodable lowercase letter changes nothing.
proof fn lemma_decode_no_fold(s: Seq<char>)
    requires
        no_decodable_fold(s),
    ensures
        decode_chars(s) == s,
    decreases s.len(),
{
    if s.len() == 0 {
    } else if s[0] == '-' && s.len() >= 2 {
        assert(!spec_decodable_lowercase(s[1]));
        assert forall|i: int|
            0 <= i < s.skip(2).len() - 1 implies !((#[trigger] s.skip(2)[i]) == '-'
            && spec_decodable_lowercase(s.skip(2)[i + 1])) by {
            assert(s.skip(2)[i] == s[i + 2]);
            assert(s.skip(2)[i + 1] == s[i + 3]);
        }
        assert(no_decodable_fold(s.skip(2)));
        lemma_decode_no_fold(s.skip(2));
        assert(decode_chars(s) =~= s);
    } else {
        assert forall|i: int|
            0 <= i < s.skip(1).len() - 1 implies !((#[trigger] s.skip(1)[i]) == '-'
            && spec_decodable_lowercase(s.skip(1)[i + 1])) by {
            assert(s.skip(1)[i] == s[i + 1]);
            assert(s.skip(1)[i + 1] == s[i + 2]);
        }
        assert(no_decodable_fold(s.skip(1)));
        lemma_decode_no_fold(s.skip(1));
        assert(decode_chars(s) =~= s);
    }
}

/// Round trip: encoding a property name and decoding the result returns the
/// name, provided the name holds no uppercase ASCII letter and no hyphen
/// immediately followed by a decodable lowercase letter.  Outside that
/// domain the round trip may land elsewhere: a name with an uppercase
/// letter encodes into a hyphen pair that decodes to the same camelCase
/// form only for letters up to `'W'`, and a literal hyphen before a
/// decodable lowercase letter is folded by the decoder into an uppercase
/// letter the original never had.
pub proof fn lemma_encode_then_decode(s: Seq<char>)
    requires
        !has_ascii_uppercase(s),
        no_decodable_fold(s),
    ensures
        decoded_property_name(encoded_attribute_name(s)) == Some(s),
{
    lemma_encode_no_uppercase(s);
    let e = encoded_attribute_name(s);
    assert(e =~= data_prefix() + s);
    assert(e.len() >= 5);
    assert(e.subrange(0, 5) =~= data_prefix());
    assert(e.skip(5) =~= s);
    lemma_decode_no_fold(s);
}

} // verus!

//! Identifier case conversions used when deriving trait implementations:
//! camel case to kebab-cased CSS identifiers, and CSS case to screaming
//! snake case.

use vstd::prelude::*;

verus! {

use crate::dataset::push_char;

/// What `str::to_lowercase` returns: the Unicode lowercase mapping of the
/// characters, which depends on the characters alone.
pub uninterp spec fn spec_unicode_lower(s: Seq<char>) -> Seq<char>;

/// What `str::to_uppercase` returns: the Unicode uppercase mapping of the
/// characters, which depends on the characters alone.
pub uninterp spec fn spec_unicode_upper(s: Seq<char>) -> Seq<char>;

/// What `char::is_uppercase` returns: whether the character has the Unicode
/// uppercase property, which depends on the character alone.
pub uninterp spec fn spec_unicode_uppercase_char(c: char) -> bool;

/// Relies on `str::to_lowercase`: the Unicode lowercase mapping of the
/// string, determined by its characters alone.
#[verifier::external_body]
fn unicode_lowercase(s: &str) -> (r: String)
    ensures
        r@ == spec_unicode_lower(s@),
{
    s.to_lowercase()
}

/// Relies on `str::to_uppercase`: the Unicode uppercase mapping of the
/// string, determined by its characters alone.
#[verifier::external_body]
fn unicode_uppercase(s: &str) -> (r: String)
    ensures
        r@ == spec_unicode_upper(s@),
{
    s.to_uppercase()
}

/// Relies on `char::is_uppercase`: whether the character has the Unicode
/// uppercase property, determined by the character alone.
#[verifier::external_body]
fn is_unicode_uppercase_char(c: char) -> (r: bool)
    ensures
        r == spec_unicode_uppercase_char(c),
{
    c.is_uppercase()
}

/// The string with every hyphen replaced by an underscore.
pub open spec fn underscore_hyphens(s: Seq<char>) -> Seq<char> {
    s.map_values(
        |c: char|
            if c == '-' {
                '_'
            } else {
                c
            },
    )
}

/// Transform CSS case to screaming snake case: uppercase the string and
/// replace every hyphen by an underscore.
pub fn to_scream_case(css_case: &str) -> (r: String)
    ensures
        r@ == underscore_hyphens(spec_unicode_upper(css_case@)),
{
    let upper = unicode_uppercase(css_case);
    let n = upper.as_str().unicode_len();
    let mut result = String::new();
    proof {
        assert(result@ =~= underscore_hyphens(upper@.take(0)));
    }
    let mut i: usize = 0;
    while i < n
        invariant
            i <= n,
            n == upper@.len(),
            upper@ == spec_unicode_upper(css_case@),
            result@ == underscore_hyphens(upper@.take(i as int)),
        decreases n - i,
    {
        let c = upper.as_str().get_char(i);
        if c == '-' {
            push_char(&mut result, '_');
        } else {
            push_char(&mut result, c);
        }
        proof {
            assert(result@ =~= underscore_hyphens(upper@.take(i + 1)));
        }
        i = i + 1;
    }
    proof {
        assert(upper@.take(n as int) =~= upper@);
    }
    result
}

/// The number of leading characters without the Unicode uppercase property.
pub open spec fn leading_lower_len(s: Seq<char>) -> nat
    decreases s.len(),
{
    if s.len() == 0 || spec_unicode_uppercase_char(s[0]) {
        0
    } else {
        1 + leading_lower_len(s.drop_first())
    }
}

/// The length of the first camel segment of a non-empty string: the first
/// character and every following character up to, and excluding, the next
/// Unicode uppercase character.
pub open spec fn first_segment_len(s: Seq<char>) -> nat
    recommends
        s.len() > 0,
{
    1 + leading_lower_len(s.skip(1))
}

proof fn lemma_leading_lower_len_bound(s: Seq<char>)
    ensures
        leading_lower_len(s) <= s.len(),
    decreases s.len(),
{
    if s.len() > 0 && !spec_unicode_uppercase_char(s[0]) {
        lemma_leading_lower_len_bound(s.drop_first());
    }
}

/// `leading_lower_len` is the index of the first Unicode uppercase
/// character, or the length when there is none.
proof fn lemma_leading_lower_len_eq(s: Seq<char>, m: int)
    requires
        0 <= m <= s.len(),
        forall|k: int| 0 <= k < m ==> !spec_unicode_uppercase_char(s[k]),
        m < s.len() ==> spec_unicode_uppercase_char(s[m]),
    ensures
        leading_lower_len(s) == m,
    decreases m,
{
    if m == 0 {
    } else {
        assert(!spec_unicode_uppercase_char(s[0]));
        assert forall|k: int| 0 <= k < m - 1 implies !spec_unicode_uppercase_char(
            s.drop_first()[k],
        ) by {
            assert(s.drop_first()[k] == s[k + 1]);
        }
        assert(m - 1 < s.drop_first().len() ==> spec_unicode_uppercase_char(
            s.drop_first()[m - 1],
        ));
        lemma_leading_lower_len_eq(s.drop_first(), m - 1);
    }
}

/// The camel segments of the string, each lowercased, joined by hyphens.  A
/// hyphen also precedes the first segment when that segment is a recognized
/// vendor prefix: `Moz`, `Webkit` or `Servo`.
pub open spec fn lower_segments(s: Seq<char>, first: bool) -> Seq<char>
    decreases s.len(),
    via lower_segments_dec
{
    if s.len() == 0 {
        Seq::empty()
    } else {
        let k = first_segment_len(s) as int;
        let seg = s.take(k);
        let vendor = seg == seq!['M', 'o', 'z'] || seg == seq!['W', 'e', 'b', 'k', 'i', 't']
            || seg == seq!['S', 'e', 'r', 'v', 'o'];
        if first && !vendor {
            spec_unicode_lower(seg) + lower_segments(s.skip(k), false)
        } else {
            seq!['-'] + spec_unicode_lower(seg) + lower_segments(s.skip(k), false)
        }
    }
}

#[via_fn]
proof fn lower_segments_dec(s: Seq<char>, first: bool) {
    if s.len() > 0 {
        lemma_leading_lower_len_bound(s.skip(1));
    }
}

/// The string with its trailing underscores removed.
pub open spec fn trim_end_underscores(s: Seq<char>) -> Seq<char>
    decreases s.len(),
{
    if s.len() > 0 && s.last() == '_' {
        trim_end_underscores(s.drop_last())
    } else {
        s
    }
}

/// The kebab-cased CSS identifier of a camel-cased one: trailing
/// underscores are trimmed, the camel segments are lowercased and joined by
/// hyphens, and a leading hyphen marks a first segment that is the vendor
/// prefix `Moz`, `Webkit` or `Servo`.
pub open spec fn spec_css_identifier(s: Seq<char>) -> Seq<char> {
    lower_segments(trim_end_underscores(s), true)
}

/// Transform a camel-cased identifier such as `FooBar` to a CSS identifier
/// such as `foo-bar`.  A first camel segment `Moz`, `Webkit` or `Servo`
/// additionally puts a hyphen in front of the result.
pub fn to_css_identifier(camel_case: &str) -> (r: String)
    ensures
        r@ == spec_css_identifier(camel_case@),
{
    let n = camel_case.unicode_len();
    proof {
        assert(camel_case@.take(n as int) =~= camel_case@);
    }
    let mut end = n;
    while end > 0 && camel_case.get_char(end - 1) == '_'
        invariant
            end <= n,
            n == camel_case@.len(),
            trim_end_underscores(camel_case@) == trim_end_underscores(
                camel_case@.take(end as int),
            ),
        decreases end,
    {
        proof {
            let cur = camel_case@.take(end as int);
            assert(cur.last() == camel_case@[end - 1]);
            assert(cur.drop_last() =~= camel_case@.take(end - 1));
        }
        end = end - 1;
    }
    let ghost t = camel_case@.take(end as int);
    proof {
        if end > 0 {
            assert(t.last() == camel_case@[end - 1]);
        }
        assert(trim_end_underscores(camel_case@) == t);
    }
    let mut result = String::new();
    let mut first: bool = true;
    proof {
        assert(t.skip(0) =~= t);
        assert(result@ + lower_segments(t, true) =~= lower_segments(t, true));
    }
    let mut i: usize = 0;
    while i < end
        invariant
            i <= end,
            end <= n,
            n == camel_case@.len(),
            t == camel_case@.take(end as int),
            lower_segments(t, true) == result@ + lower_segments(t.skip(i as int), first),
            i == 0 ==> first,
            i > 0 ==> !first,
        decreases end - i,
    {
        let ghost rem = t.skip(i as int);
        let ghost was_first = first;
        let ghost res0 = result@;
        // Find the end of the current camel segment.
        let mut j = i + 1;
        while j < end && !is_unicode_uppercase_char(camel_case.get_char(j))
            invariant
                i + 1 <= j <= end,
                i < end <= n,
                n == camel_case@.len(),
                t == camel_case@.take(end as int),
                forall|k: int| i + 1 <= k < j ==> !spec_unicode_uppercase_char(t[k]),
            decreases end - j,
        {
            proof {
                assert(t[j as int] == camel_case@[j as int]);
            }
            j = j + 1;
        }
        proof {
            let after = rem.skip(1);
            assert(after =~= t.skip(i + 1));
            assert forall|k: int| 0 <= k < j - i - 1 implies !spec_unicode_uppercase_char(
                after[k],
            ) by {
                assert(after[k] == t[k + i + 1]);
            }
            if j < end {
                assert(t[j as int] == camel_case@[j as int]);
                assert(after[j - i - 1] == t[j as int]);
            }
            lemma_leading_lower_len_eq(after, j - i - 1);
            assert(first_segment_len(rem) == j - i);
        }
        let segment = camel_case.substring_char(i, j);
        let ghost seg = rem.take(j - i);
        proof {
            assert(segment@ =~= seg);
            assert forall|k: int| 0 <= k < seg.len() implies seg[k] == camel_case@[i + k] by {
                assert(seg[k] == t[i + k]);
            }
        }
        // Whether the first segment is a recognized vendor prefix.
        let vendor = if first {
            is_vendor_prefix(segment)
        } else {
            false
        };
        if first && vendor {
            first = false;
        }
        if !first {
            push_char(&mut result, '-');
        }
        first = false;
        let lowered = unicode_lowercase(segment);
        result.append(lowered.as_str());
        proof {
            assert(rem.skip(j - i) =~= t.skip(j as int));
            assert(lowered@ == spec_unicode_lower(seg));
            let spec_vendor = seg == seq!['M', 'o', 'z'] || seg == seq![
                'W',
                'e',
                'b',
                'k',
                'i',
                't',
            ] || seg == seq!['S', 'e', 'r', 'v', 'o'];
            if was_first && !spec_vendor {
                assert(result@ =~= res0 + spec_unicode_lower(seg));
                assert(lower_segments(rem, was_first) =~= spec_unicode_lower(seg)
                    + lower_segments(rem.skip(j - i), false));
            } else {
                assert(result@ =~= res0 + (seq!['-'] + spec_unicode_lower(seg)));
                assert(lower_segments(rem, was_first) =~= (seq!['-'] + spec_unicode_lower(seg))
                    + lower_segments(rem.skip(j - i), false));
            }
            assert(lower_segments(t, true) =~= result@ + lower_segments(t.skip(j as int), false));
        }
        i = j;
    }
    proof {
        assert(t.skip(end as int) =~= Seq::<char>::empty());
        assert(result@ + lower_segments(t.skip(end as int), first) =~= result@);
        if i == 0 {
            assert(t.skip(0) =~= t);
        }
    }
    result
}

/// True iff the segment is one of the vendor prefixes `Moz`, `Webkit` or
/// `Servo`.
fn is_vendor_prefix(segment: &str) -> (r: bool)
    ensures
        r == (segment@ == seq!['M', 'o', 'z'] || segment@ == seq!['W', 'e', 'b', 'k', 'i', 't']
            || segment@ == seq!['S', 'e', 'r', 'v', 'o']),
{
    let n = segment.unicode_len();
    if n == 3 {
        let r = segment.get_char(0) == 'M' && segment.get_char(1) == 'o' && segment.get_char(2)
            == 'z';
        proof {
            if r {
                assert(segment@ =~= seq!['M', 'o', 'z']);
            }
        }
        r
    } else if n == 6 {
        let r = segment.get_char(0) == 'W' && segment.get_char(1) == 'e' && segment.get_char(2)
            == 'b' && segment.get_char(3) == 'k' && segment.get_char(4) == 'i' && segment.get_char(
            5,
        ) == 't';
        proof {
            if r {
                assert(segment@ =~= seq!['W', 'e', 'b', 'k', 'i', 't']);
            }
        }
        r
    } else if n == 5 {
        let r = segment.get_char(0) == 'S' && segment.get_char(1) == 'e' && segment.get_char(2)
            == 'r' && segment.get_char(3) == 'v' && segment.get_char(4) == 'o';
        proof {
            if r {
                assert(segment@ =~= seq!['S', 'e', 'r', 'v', 'o']);
            }
        }
        r
    } else {
        false
    }
}

} // verus!

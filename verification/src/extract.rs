//! Reading the fields of an entry out of what the feed shows: the post text, the
//! timestamp attribute and the link.

use vstd::prelude::*;
use vstd::string::StringExecFns;
use crate::decimal::{
    all_digits, decimal_digits, decimal_value, is_digit, lemma_digits_round_trip, parse_i64,
    parse_u32, signed_decimal,
};
use crate::item::{Item, ItemView};
use crate::text::{chars_of, string_of};

verus! {

/// Why a field could not be read: the feed no longer has the expected shape.
#[derive(Clone, Copy, Debug, PartialEq, Eq, Structural)]
pub enum ShapeError {
    /// The post text is not a marker, a number, a space and a body.
    PostText,
    /// The timestamp is no integer, or its instant cannot be held.
    Timestamp,
    /// The link has no path segment to take an identifier from.
    Permalink,
}

/// The number and the body read from a post text.
#[derive(Debug, PartialEq, Eq)]
pub struct PostHead {
    pub sequence: u32,
    pub body: String,
}

/// The index of the first `c` in `s`, or the length of `s` where there is none.
pub open spec fn first_index(s: Seq<char>, c: char) -> int
    decreases s.len(),
{
    if s.len() == 0 || s[0] == c {
        0
    } else {
        1 + first_index(s.skip(1), c)
    }
}

/// The index of the last `c` in `s`, or -1 where there is none.
pub open spec fn last_index(s: Seq<char>, c: char) -> int
    decreases s.len(),
{
    if s.len() == 0 {
        -1
    } else if s.last() == c {
        s.len() - 1
    } else {
        last_index(s.drop_last(), c)
    }
}

/// `first_index` is the one place before which no `c` stands and at which one
/// does, unless the sequence ends there.
pub proof fn lemma_first_index(s: Seq<char>, c: char, k: int)
    requires
        0 <= k <= s.len(),
        forall|j: int| 0 <= j < k ==> s[j] != c,
        k < s.len() ==> s[k] == c,
    ensures
        first_index(s, c) == k,
    decreases s.len(),
{
    if k > 0 {
        let t = s.skip(1);
        assert forall|j: int| 0 <= j < k - 1 implies t[j] != c by {
            assert(t[j] == s[j + 1]);
        }
        lemma_first_index(t, c, k - 1);
    }
}

/// `last_index` is the one place after which no `c` stands and at which one
/// does, unless it is -1.
pub proof fn lemma_last_index(s: Seq<char>, c: char, k: int)
    requires
        -1 <= k < s.len(),
        forall|j: int| k < j < s.len() ==> s[j] != c,
        k >= 0 ==> s[k] == c,
    ensures
        last_index(s, c) == k,
    decreases s.len(),
{
    if k < s.len() - 1 {
        let t = s.drop_last();
        assert forall|j: int| k < j < t.len() implies t[j] != c by {
            assert(t[j] == s[j]);
        }
        lemma_last_index(t, c, k);
    }
}

/// Whether `s` is a post text: one marker character that is no digit, at least
/// one digit, a space, and then the body. The digits denote a number that fits
/// the sequence type.
pub open spec fn is_post_text(s: Seq<char>) -> bool {
    let k = first_index(s, ' ');
    &&& 2 <= k < s.len()
    &&& !is_digit(s[0])
    &&& all_digits(s.subrange(1, k))
    &&& decimal_value(s.subrange(1, k)) <= u32::MAX
}

/// The number that a post text leads with.
pub open spec fn post_sequence(s: Seq<char>) -> nat {
    decimal_value(s.subrange(1, first_index(s, ' ')))
}

/// What follows the first space of a post text.
pub open spec fn post_body(s: Seq<char>) -> Seq<char> {
    s.skip(first_index(s, ' ') + 1)
}

/// The grammar of a post text: a marker that is neither a digit nor a space,
/// then a numeral that fits the sequence type, a space and any body make a post
/// text, and it is read as that number and that body.
pub proof fn law_post_text(marker: char, digits: Seq<char>, body: Seq<char>)
    requires
        !is_digit(marker),
        marker != ' ',
        digits.len() > 0,
        all_digits(digits),
        decimal_value(digits) <= u32::MAX,
    ensures
        is_post_text(seq![marker] + digits + seq![' '] + body),
        post_sequence(seq![marker] + digits + seq![' '] + body) == decimal_value(digits),
        post_body(seq![marker] + digits + seq![' '] + body) == body,
{
    let s = seq![marker] + digits + seq![' '] + body;
    let k = 1 + digits.len() as int;
    assert forall|j: int| 0 <= j < k implies s[j] != ' ' by {
        if j > 0 {
            assert(s[j] == digits[j - 1]);
        }
    }
    assert(s[k] == ' ');
    lemma_first_index(s, ' ', k);
    assert(s.subrange(1, k) =~= digits);
    assert(s.skip(k + 1) =~= body);
}

/// A number written after `#` and before a space is the number read back.
pub proof fn law_written_number_is_read(sequence: u32, body: Seq<char>)
    ensures
        is_post_text(seq!['#'] + decimal_digits(sequence as nat) + seq![' '] + body),
        post_sequence(seq!['#'] + decimal_digits(sequence as nat) + seq![' '] + body) == sequence,
        post_body(seq!['#'] + decimal_digits(sequence as nat) + seq![' '] + body) == body,
{
    lemma_digits_round_trip(sequence as nat);
    law_post_text('#', decimal_digits(sequence as nat), body);
}

/// Splits a post text into its number and its body.
pub fn parse_post_text(raw: &str) -> (r: Result<PostHead, ShapeError>)
    ensures
        match r {
            Ok(head) => is_post_text(raw@) && head.sequence == post_sequence(raw@) && head.body@
                == post_body(raw@),
            Err(e) => !is_post_text(raw@) && e == ShapeError::PostText,
        },
{
    let chars = chars_of(raw);
    let n = chars.len();
    let mut k: usize = 0;
    while k < n && chars[k] != ' '
        invariant
            k <= n == chars.len(),
            forall|j: int| 0 <= j < k ==> chars@[j] != ' ',
        decreases n - k,
    {
        k += 1;
    }
    proof {
        lemma_first_index(chars@, ' ', k as int);
    }
    if k >= n || k < 2 {
        return Err(ShapeError::PostText);
    }
    let marker = chars[0];
    if marker >= '0' && marker <= '9' {
        return Err(ShapeError::PostText);
    }
    match parse_u32(&chars, 1, k) {
        Some(sequence) => {
            let body = string_of(&chars, k + 1, n);
            assert(chars@.subrange(k + 1, n as int) =~= chars@.skip(k + 1));
            Ok(PostHead { sequence, body })
        },
        None => Err(ShapeError::PostText),
    }
}

/// The instant of a timestamp attribute, in seconds since the epoch, where the
/// attribute is an integer whose instant in milliseconds fits 64 bits.
pub open spec fn epoch_seconds(s: Seq<char>) -> Option<int> {
    match signed_decimal(s) {
        Some(v) => if i64::MIN <= v * 1000 <= i64::MAX {
            Some(v)
        } else {
            None
        },
        None => None,
    }
}

/// Reads a timestamp attribute: seconds since the epoch.
pub fn parse_epoch_seconds(attr: &str) -> (r: Result<i64, ShapeError>)
    ensures
        match r {
            Ok(seconds) => epoch_seconds(attr@) == Some(seconds as int),
            Err(e) => epoch_seconds(attr@) is None && e == ShapeError::Timestamp,
        },
{
    let chars = chars_of(attr);
    match parse_i64(&chars) {
        Some(seconds) => {
            if seconds > 9223372036854775 || seconds < -9223372036854775 {
                Err(ShapeError::Timestamp)
            } else {
                Ok(seconds)
            }
        },
        None => Err(ShapeError::Timestamp),
    }
}

/// The query that the feed appends to the links of embedded posts.
pub open spec fn tracking_suffix() -> Seq<char> {
    seq!['?', 'r', 'e', 'f', '=', 'e', 'm', 'b', 'e', 'd', '_', 'p', 'o', 's', 't']
}

/// Whether `s` ends with `suffix`.
pub open spec fn ends_with(s: Seq<char>, suffix: Seq<char>) -> bool {
    s.len() >= suffix.len() && s.skip(s.len() - suffix.len()) == suffix
}

/// `href` without the tracking suffix, where it ends with it.
pub open spec fn without_tracking(href: Seq<char>) -> Seq<char> {
    if ends_with(href, tracking_suffix()) {
        href.take(href.len() - tracking_suffix().len())
    } else {
        href
    }
}

/// Whether `chars` ends with `suffix`.
fn has_suffix(chars: &Vec<char>, suffix: &Vec<char>) -> (r: bool)
    ensures
        r == ends_with(chars@, suffix@),
{
    let n = chars.len();
    let m = suffix.len();
    if n < m {
        return false;
    }
    let mut i: usize = 0;
    while i < m
        invariant
            i <= m == suffix.len(),
            m <= n == chars.len(),
            forall|j: int| 0 <= j < i ==> chars@[n - m + j] == suffix@[j],
        decreases m - i,
    {
        if chars[n - m + i] != suffix[i] {
            assert(chars@.skip(n - m)[i as int] != suffix@[i as int]);
            return false;
        }
        i += 1;
    }
    assert(chars@.skip(n - m) =~= suffix@);
    true
}

/// Takes the tracking suffix off a link.
pub fn strip_tracking_suffix(href: &str) -> (r: String)
    ensures
        r@ == without_tracking(href@),
{
    proof {
        reveal_strlit("?ref=embed_post");
    }
    let chars = chars_of(href);
    let suffix = chars_of("?ref=embed_post");
    assert(suffix@ =~= tracking_suffix());
    if has_suffix(&chars, &suffix) {
        let r = string_of(&chars, 0, chars.len() - suffix.len());
        assert(chars@.subrange(0, chars.len() - suffix.len()) =~= chars@.take(
            chars.len() - suffix.len(),
        ));
        r
    } else {
        let r = string_of(&chars, 0, chars.len());
        assert(chars@.subrange(0, chars.len() as int) =~= chars@);
        r
    }
}

/// What follows the last `/` of `s`, where there is one.
pub open spec fn final_segment(s: Seq<char>) -> Option<Seq<char>> {
    if last_index(s, '/') >= 0 {
        Some(s.skip(last_index(s, '/') + 1))
    } else {
        None
    }
}

/// The last path segment of a link.
pub fn last_path_segment(link: &str) -> (r: Option<String>)
    ensures
        match r {
            Some(segment) => final_segment(link@) == Some(segment@),
            None => final_segment(link@) is None,
        },
{
    let chars = chars_of(link);
    let n = chars.len();
    let mut i: usize = n;
    while i > 0 && chars[i - 1] != '/'
        invariant
            i <= n == chars.len(),
            forall|j: int| i <= j < n ==> chars@[j] != '/',
        decreases i,
    {
        i -= 1;
    }
    proof {
        lemma_last_index(chars@, '/', i as int - 1);
    }
    if i == 0 {
        None
    } else {
        let segment = string_of(&chars, i, n);
        assert(chars@.subrange(i as int, n as int) =~= chars@.skip(i as int));
        Some(segment)
    }
}

/// The characters of an attribute, where the element has it.
pub open spec fn attribute(value: Option<&str>) -> Option<Seq<char>> {
    match value {
        Some(text) => Some(text@),
        None => None,
    }
}

/// The entry that a post's number and body make with the timestamp attribute
/// and the link of its detail view, under the feed's root address. The
/// permalink is the root followed by the link without its tracking suffix. An
/// attribute that is missing is as bad as one that cannot be read, and the
/// timestamp is looked at first.
pub open spec fn entry_of(
    sequence: nat,
    body: Seq<char>,
    timestamp: Option<Seq<char>>,
    href: Option<Seq<char>>,
    root: Seq<char>,
) -> Result<ItemView, ShapeError> {
    if timestamp is None || epoch_seconds(timestamp.unwrap()) is None {
        Err(ShapeError::Timestamp)
    } else if href is None || final_segment(root + without_tracking(href.unwrap())) is None {
        Err(ShapeError::Permalink)
    } else {
        let seconds = epoch_seconds(timestamp.unwrap()).unwrap();
        let permalink = root + without_tracking(href.unwrap());
        Ok(
            ItemView {
                sequence,
                text: body,
                published_at: seconds * 1000,
                timestamp: seconds,
                permalink,
                source_id: final_segment(permalink).unwrap(),
            },
        )
    }
}

/// Builds the entry of a post from its head and the two attributes of its
/// detail view.
pub fn assemble(head: PostHead, timestamp: Option<&str>, href: Option<&str>, root: &str) -> (r:
    Result<Item, ShapeError>)
    ensures
        match r {
            Ok(item) => entry_of(
                head.sequence as nat,
                head.body@,
                attribute(timestamp),
                attribute(href),
                root@,
            ) == Ok::<ItemView, ShapeError>(item@),
            Err(e) => entry_of(
                head.sequence as nat,
                head.body@,
                attribute(timestamp),
                attribute(href),
                root@,
            ) == Err::<ItemView, ShapeError>(e),
        },
{
    let seconds = match timestamp {
        Some(attr) => match parse_epoch_seconds(attr) {
            Ok(seconds) => seconds,
            Err(e) => {
                return Err(e);
            },
        },
        None => {
            return Err(ShapeError::Timestamp);
        },
    };
    let link = match href {
        Some(link) => link,
        None => {
            return Err(ShapeError::Permalink);
        },
    };
    let stripped = strip_tracking_suffix(link);
    let mut permalink = String::from_str(root);
    permalink.append(stripped.as_str());
    let source_id = match last_path_segment(permalink.as_str()) {
        Some(segment) => segment,
        None => {
            return Err(ShapeError::Permalink);
        },
    };
    Ok(
        Item {
            sequence: head.sequence,
            text: head.body,
            published_at: seconds * 1000,
            timestamp: seconds,
            permalink,
            source_id,
        },
    )
}

} // verus!

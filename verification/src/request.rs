//! The peek at a connection's first chunk: the request path is the second
//! whitespace-separated word of the first line, and `/` when there is none.
//! This is a routing hint taken from one chunk, not a request parser.

use vstd::prelude::*;
use vstd::string::*;
use vstd::utf8::{decode_utf8, valid_utf8};

verus! {

/// Largest number of bytes read from a client before routing.
pub const INITIAL_CHUNK: usize = 1024;

/// The characters with the Unicode property `White_Space`.
pub open spec fn is_whitespace(c: char) -> bool {
    let u = c as u32;
    ||| 0x09 <= u <= 0x0D
    ||| u == 0x20
    ||| u == 0x85
    ||| u == 0xA0
    ||| u == 0x1680
    ||| 0x2000 <= u <= 0x200A
    ||| u == 0x2028
    ||| u == 0x2029
    ||| u == 0x202F
    ||| u == 0x205F
    ||| u == 0x3000
}

/// Position of the first line feed at or after `from`, or the length of
/// the text when there is none.
pub open spec fn line_end(text: Seq<char>, from: int) -> int
    decreases text.len() - from,
{
    if from < 0 || from >= text.len() {
        text.len() as int
    } else if text[from] == '\n' {
        from
    } else {
        line_end(text, from + 1)
    }
}

/// The text before the first line feed; all of it when there is none.
pub open spec fn first_line(text: Seq<char>) -> Seq<char> {
    text.subrange(0, line_end(text, 0))
}

/// Position of the first character at or after `from` that is no
/// whitespace, or the length of the line.
pub open spec fn word_start(line: Seq<char>, from: int) -> int
    decreases line.len() - from,
{
    if from < 0 || from >= line.len() {
        line.len() as int
    } else if !is_whitespace(line[from]) {
        from
    } else {
        word_start(line, from + 1)
    }
}

/// Position of the first whitespace character at or after `from`, or the
/// length of the line.
pub open spec fn word_end(line: Seq<char>, from: int) -> int
    decreases line.len() - from,
{
    if from < 0 || from >= line.len() {
        line.len() as int
    } else if is_whitespace(line[from]) {
        from
    } else {
        word_end(line, from + 1)
    }
}

/// The second word of a line, or `/` when the line has fewer than two.
pub open spec fn second_word(line: Seq<char>) -> Seq<char> {
    let first = word_start(line, 0);
    let second = word_start(line, word_end(line, first));
    if second < line.len() {
        line.subrange(second, word_end(line, second))
    } else {
        seq!['/']
    }
}

/// The request path that a connection's first text stands for.
pub open spec fn request_path_of(text: Seq<char>) -> Seq<char> {
    second_word(first_line(text))
}

/// A word found by `word_start` and `word_end` lies inside the line and
/// holds no whitespace; it is empty only at the end of the line.
pub proof fn lemma_word_bounds(line: Seq<char>, from: int)
    requires
        0 <= from <= line.len(),
    ensures
        from <= word_start(line, from) <= word_end(line, word_start(line, from)) <= line.len(),
        word_start(line, from) < line.len() ==> !is_whitespace(line[word_start(line, from)])
            && word_start(line, from) < word_end(line, word_start(line, from)),
        forall|i: int|
            word_start(line, from) <= i < word_end(line, word_start(line, from))
                ==> !is_whitespace(#[trigger] line[i]),
        forall|i: int| from <= i < word_start(line, from) ==> is_whitespace(#[trigger] line[i]),
{
    lemma_word_start(line, from);
    lemma_word_end(line, word_start(line, from));
}

proof fn lemma_word_start(line: Seq<char>, from: int)
    requires
        0 <= from <= line.len(),
    ensures
        from <= word_start(line, from) <= line.len(),
        word_start(line, from) < line.len() ==> !is_whitespace(line[word_start(line, from)]),
        forall|i: int| from <= i < word_start(line, from) ==> is_whitespace(#[trigger] line[i]),
    decreases line.len() - from,
{
    if from < line.len() && is_whitespace(line[from]) {
        lemma_word_start(line, from + 1);
    }
}

proof fn lemma_word_end(line: Seq<char>, from: int)
    requires
        0 <= from <= line.len(),
    ensures
        from <= word_end(line, from) <= line.len(),
        from < line.len() && !is_whitespace(line[from]) ==> from < word_end(line, from),
        word_end(line, from) < line.len() ==> is_whitespace(line[word_end(line, from)]),
        forall|i: int| from <= i < word_end(line, from) ==> !is_whitespace(#[trigger] line[i]),
    decreases line.len() - from,
{
    if from < line.len() && !is_whitespace(line[from]) {
        lemma_word_end(line, from + 1);
    }
}

proof fn lemma_line_end(text: Seq<char>, from: int)
    requires
        0 <= from <= text.len(),
    ensures
        from <= line_end(text, from) <= text.len(),
        line_end(text, from) < text.len() ==> text[line_end(text, from)] == '\n',
        forall|i: int| from <= i < line_end(text, from) ==> #[trigger] text[i] != '\n',
    decreases text.len() - from,
{
    if from < text.len() && text[from] != '\n' {
        lemma_line_end(text, from + 1);
    }
}

/// The request path is never empty. It is either the default `/` or a
/// stretch of the text, taken from before the first line feed, that holds
/// no whitespace.
pub proof fn lemma_request_path_is_a_word(text: Seq<char>)
    ensures
        request_path_of(text).len() > 0,
        request_path_of(text) == seq!['/'] || {
            &&& forall|i: int|
                0 <= i < request_path_of(text).len() ==> !is_whitespace(
                    #[trigger] request_path_of(text)[i],
                )
            &&& exists|a: int, b: int|
                0 <= a < b <= line_end(text, 0) && request_path_of(text) == text.subrange(a, b)
        },
{
    lemma_line_end(text, 0);
    let line = first_line(text);
    lemma_word_bounds(line, 0);
    let first_end = word_end(line, word_start(line, 0));
    lemma_word_bounds(line, first_end);
    let a = word_start(line, first_end);
    let b = word_end(line, a);
    if a < line.len() {
        assert(request_path_of(text) =~= text.subrange(a, b));
        assert forall|i: int| 0 <= i < request_path_of(text).len() implies !is_whitespace(
            #[trigger] request_path_of(text)[i],
        ) by {
            assert(request_path_of(text)[i] == line[a + i]);
        }
    }
}

/// The text that a chunk of bytes is read as: its UTF-8 decoding, with
/// each malformed sequence replaced by U+FFFD.
pub uninterp spec fn utf8_lossy(bytes: Seq<u8>) -> Seq<char>;

/// `String::from_utf8_lossy` of the standard library, as an owned string.
/// Trusted: the result is a function of the bytes alone, and for
/// well-formed UTF-8 it is the plain decoding.
#[verifier::external_body]
fn decode_lossy(bytes: &[u8]) -> (text: String)
    ensures
        text@ == utf8_lossy(bytes@),
        valid_utf8(bytes@) ==> text@ == decode_utf8(bytes@),
{
    String::from_utf8_lossy(bytes).into_owned()
}

/// Whether `c` is whitespace.
pub fn char_is_whitespace(c: char) -> (r: bool)
    ensures
        r == is_whitespace(c),
{
    let u: u32 = c as u32;
    (0x09 <= u && u <= 0x0D) || u == 0x20 || u == 0x85 || u == 0xA0 || u == 0x1680 || (0x2000
        <= u && u <= 0x200A) || u == 0x2028 || u == 0x2029 || u == 0x202F || u == 0x205F || u
        == 0x3000
}

fn find_line_end(text: &str, len: usize) -> (end: usize)
    requires
        len == text@.len(),
    ensures
        end as int == line_end(text@, 0),
        end <= len,
{
    let mut i: usize = 0;
    while i < len
        invariant
            0 <= i <= len,
            len == text@.len(),
            line_end(text@, 0) == line_end(text@, i as int),
        decreases len - i,
    {
        if text.get_char(i) == '\n' {
            return i;
        }
        i += 1;
    }
    i
}

fn find_word_start(line: &str, len: usize, from: usize) -> (at: usize)
    requires
        len == line@.len(),
        from <= len,
    ensures
        at as int == word_start(line@, from as int),
        from <= at <= len,
{
    let mut i: usize = from;
    while i < len
        invariant
            from <= i <= len,
            len == line@.len(),
            word_start(line@, from as int) == word_start(line@, i as int),
        decreases len - i,
    {
        if !char_is_whitespace(line.get_char(i)) {
            return i;
        }
        i += 1;
    }
    i
}

fn find_word_end(line: &str, len: usize, from: usize) -> (at: usize)
    requires
        len == line@.len(),
        from <= len,
    ensures
        at as int == word_end(line@, from as int),
        from <= at <= len,
{
    let mut i: usize = from;
    while i < len
        invariant
            from <= i <= len,
            len == line@.len(),
            word_end(line@, from as int) == word_end(line@, i as int),
        decreases len - i,
    {
        if char_is_whitespace(line.get_char(i)) {
            return i;
        }
        i += 1;
    }
    i
}

/// The request path in a connection's first text: the second word of its
/// first line, or `/` when that line has fewer than two words.
pub fn request_path_in(text: &str) -> (path: String)
    ensures
        path@ == request_path_of(text@),
{
    let text_len = text.unicode_len();
    let end = find_line_end(text, text_len);
    let line = text.substring_char(0, end);
    let len = end;
    let first = find_word_start(line, len, 0);
    let first_end = find_word_end(line, len, first);
    let second = find_word_start(line, len, first_end);
    if second < len {
        let second_end = find_word_end(line, len, second);
        String::from_str(line.substring_char(second, second_end))
    } else {
        proof {
            reveal_strlit("/");
            assert("/"@ =~= seq!['/']);
        }
        String::from_str("/")
    }
}

/// The request path that the first chunk of a connection stands for. The
/// chunk is read as text first, malformed bytes and all.
pub fn request_path(chunk: &[u8]) -> (path: String)
    ensures
        path@ == request_path_of(utf8_lossy(chunk@)),
        valid_utf8(chunk@) ==> path@ == request_path_of(decode_utf8(chunk@)),
{
    let text = decode_lossy(chunk);
    request_path_in(text.as_str())
}

} // verus!

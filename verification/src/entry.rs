//! One record of the note stack and its line format.
//!
//! A record is written on one line as its index in decimal, a `|`, its content
//! and, where it has a comment, the token `??` and the comment. The format has
//! no escaping: the first `|` of a line ends the index, and the first `??`
//! after it ends the content, whatever the content was meant to be.

use vstd::prelude::*;
use vstd::string::StringExecFns;
use crate::text::{
    all_digits, chars_of, decimal, find_char, first_of, is_canonical, is_digit, is_first,
    lemma_canonical_is_decimal, lemma_decimal_denotes, lemma_first_is_unique, lemma_number_grows,
    number_of, occurs, push_decimal, string_of,
};

verus! {

/// The largest index that a record can have.
pub const MAX_INDEX: u16 = 65535;

/// What a record is: its position label, its text, and its comment if it has
/// one.
pub struct Record {
    pub index: nat,
    pub content: Seq<char>,
    pub comment: Option<Seq<char>>,
}

/// One stored note.
#[derive(Clone, Debug, PartialEq, Eq)]
pub struct Entry {
    pub index: u16,
    pub content: String,
    pub comment: Option<String>,
}

/// Why a line is not a record.
#[derive(Clone, Copy, Debug, PartialEq, Eq, Structural)]
pub enum DecodeFault {
    /// The line holds no `|`.
    MissingSeparator,
    /// The text before the first `|` is not an index.
    BadIndex,
}

impl View for Entry {
    type V = Record;

    open spec fn view(&self) -> Record {
        Record {
            index: self.index as nat,
            content: self.content@,
            comment: match self.comment {
                Some(c) => Some(c@),
                None => None,
            },
        }
    }
}

/// Whether `s` holds a `|`.
pub open spec fn has_separator(s: Seq<char>) -> bool {
    occurs(s, '|')
}

/// The position of the first `|` of `s`, where it has one.
pub open spec fn separator_of(s: Seq<char>) -> int {
    first_of(s, '|')
}

/// Whether the token `??` stands at position `i` of `s`.
pub open spec fn token_at(s: Seq<char>, i: int) -> bool {
    &&& 0 <= i
    &&& i + 1 < s.len()
    &&& s[i] == '?'
    &&& s[i + 1] == '?'
}

/// Whether `i` is the first position of `s` at which the token `??` stands.
pub open spec fn is_first_token(s: Seq<char>, i: int) -> bool {
    &&& token_at(s, i)
    &&& forall|j: int| 0 <= j < i ==> !token_at(s, j)
}

/// Whether the token `??` occurs in `s`.
pub open spec fn has_token(s: Seq<char>) -> bool {
    exists|i: int| is_first_token(s, i)
}

/// The position of the first `??` of `s`, where it has one.
pub open spec fn token_of(s: Seq<char>) -> int {
    choose|i: int| is_first_token(s, i)
}

/// The digits of an index token: the token without its leading `+`, if it has
/// one.
pub open spec fn digits_of(token: Seq<char>) -> Seq<char> {
    if token.len() > 0 && token[0] == '+' {
        token.skip(1)
    } else {
        token
    }
}

/// The index that `token` denotes: an optional `+`, then decimal digits, at
/// least one, whose number is an index. Leading zeros are read over.
pub open spec fn index_of(token: Seq<char>) -> Option<nat> {
    let digits = digits_of(token);
    if digits.len() > 0 && all_digits(digits) && number_of(digits) <= MAX_INDEX {
        Some(number_of(digits))
    } else {
        None
    }
}

/// What stands after the first `|` of a line, taken apart at the first `??`.
pub open spec fn split_content(index: nat, rest: Seq<char>) -> Record {
    if has_token(rest) {
        Record {
            index,
            content: rest.take(token_of(rest)),
            comment: Some(rest.skip(token_of(rest) + 2)),
        }
    } else {
        Record { index, content: rest, comment: None }
    }
}

/// The record that `line` holds, or why it holds none.
pub open spec fn decode_line(line: Seq<char>) -> Result<Record, DecodeFault> {
    if !has_separator(line) {
        Err(DecodeFault::MissingSeparator)
    } else {
        match index_of(line.take(separator_of(line))) {
            None => Err(DecodeFault::BadIndex),
            Some(index) => Ok(split_content(index, line.skip(separator_of(line) + 1))),
        }
    }
}

/// What follows the content of a record on its line.
pub open spec fn comment_suffix(comment: Option<Seq<char>>) -> Seq<char> {
    match comment {
        Some(c) => seq!['?', '?'] + c,
        None => Seq::empty(),
    }
}

/// The line that holds `record`.
pub open spec fn encode_line(record: Record) -> Seq<char> {
    decimal(record.index) + seq!['|'] + record.content + comment_suffix(record.comment)
}

/// Whether a record comes back from its line as it went in: its index is in
/// range, its content holds no `??`, and where it has a comment its content
/// does not end in a `?` that would join the token.
pub open spec fn is_faithful(record: Record) -> bool {
    &&& record.index <= MAX_INDEX
    &&& forall|i: int| !token_at(record.content, i)
    &&& (record.comment is Some && record.content.len() > 0 ==> record.content.last() != '?')
}

/// Whether a line is written as `encode_line` writes it: it holds a record and
/// its index is in shortest decimal form.
pub open spec fn is_well_formed(line: Seq<char>) -> bool {
    &&& decode_line(line) is Ok
    &&& is_canonical(line.take(separator_of(line)))
}

/// The first position of the token is the only one.
pub proof fn lemma_first_token_is_unique(s: Seq<char>, i: int, j: int)
    requires
        is_first_token(s, i),
        is_first_token(s, j),
    ensures
        i == j,
{
    if i < j {
        assert(!token_at(s, i));
    } else if j < i {
        assert(!token_at(s, j));
    }
}

/// A line with its first `|` at `at` decodes by the text on both sides of it.
pub proof fn lemma_decode_at(line: Seq<char>, at: int)
    requires
        is_first(line, '|', at),
    ensures
        decode_line(line) == match index_of(line.take(at)) {
            None => Err(DecodeFault::BadIndex),
            Some(index) => Ok(split_content(index, line.skip(at + 1))),
        },
{
    assert(has_separator(line));
    lemma_first_is_unique(line, '|', at, separator_of(line));
}

/// Text with its first `??` at `at` is taken apart there.
pub proof fn lemma_split_at(index: nat, rest: Seq<char>, at: int)
    requires
        is_first_token(rest, at),
    ensures
        split_content(index, rest) == (Record {
            index,
            content: rest.take(at),
            comment: Some(rest.skip(at + 2)),
        }),
{
    assert(has_token(rest));
    lemma_first_token_is_unique(rest, at, token_of(rest));
}

/// Text without a `??` is content as a whole.
pub proof fn lemma_split_none(index: nat, rest: Seq<char>)
    requires
        forall|i: int| !token_at(rest, i),
    ensures
        split_content(index, rest) == (Record { index, content: rest, comment: None }),
{
    if has_token(rest) {
        let i = token_of(rest);
        assert(token_at(rest, i));
    }
}

/// Decoding undoes encoding: a faithful record comes back from its line
/// unchanged.
pub proof fn lemma_decode_encode(record: Record)
    requires
        is_faithful(record),
    ensures
        decode_line(encode_line(record)) == Ok::<Record, DecodeFault>(record),
{
    let token = decimal(record.index);
    let rest = record.content + comment_suffix(record.comment);
    let line = encode_line(record);
    let at = token.len() as int;
    lemma_decimal_denotes(record.index);
    assert(line =~= token + seq!['|'] + rest);
    assert(is_first(line, '|', at)) by {
        assert(line[at] == '|');
        assert forall|j: int| 0 <= j < at implies line[j] != '|' by {
            assert(line[j] == token[j]);
            assert(is_digit(token[j]));
        }
    }
    assert(line.take(at) =~= token);
    assert(line.skip(at + 1) =~= rest);
    assert(token[0] != '+') by {
        assert(is_digit(token[0]));
    }
    assert(digits_of(token) == token);
    assert(index_of(token) == Some(record.index));
    lemma_decode_at(line, at);
    match record.comment {
        Some(c) => {
            let q = record.content.len() as int;
            assert(rest =~= record.content + seq!['?', '?'] + c);
            assert(is_first_token(rest, q)) by {
                assert(rest[q] == '?');
                assert(rest[q + 1] == '?');
                assert forall|j: int| 0 <= j < q implies !token_at(rest, j) by {
                    if j + 1 < q {
                        assert(rest[j] == record.content[j]);
                        assert(rest[j + 1] == record.content[j + 1]);
                        assert(!token_at(record.content, j));
                    } else {
                        assert(rest[j] == record.content.last());
                    }
                }
            }
            lemma_split_at(record.index, rest, q);
            assert(rest.take(q) =~= record.content);
            assert(rest.skip(q + 2) =~= c);
        },
        None => {
            assert(rest =~= record.content);
            lemma_split_none(record.index, rest);
        },
    }
}

/// Encoding undoes decoding: a well-formed line is the line of the record it
/// holds.
pub proof fn lemma_encode_decode(line: Seq<char>)
    requires
        is_well_formed(line),
    ensures
        encode_line(decode_line(line)->Ok_0) == line,
{
    let at = separator_of(line);
    let token = line.take(at);
    let rest = line.skip(at + 1);
    let record = decode_line(line)->Ok_0;
    assert(is_first(line, '|', at));
    assert(token[0] != '+') by {
        assert(is_digit(token[0]));
    }
    assert(digits_of(token) == token);
    lemma_canonical_is_decimal(token);
    assert(decimal(record.index) == token);
    assert(line =~= token + seq!['|'] + rest);
    if has_token(rest) {
        let q = token_of(rest);
        assert(is_first_token(rest, q));
        assert(rest =~= rest.take(q) + seq!['?', '?'] + rest.skip(q + 2));
        assert(encode_line(record) =~= line);
    } else {
        assert(encode_line(record) =~= line);
    }
}

/// What encoding writes is well formed, whatever the content and the
/// comment hold.
pub proof fn lemma_encoded_is_well_formed(record: Record)
    requires
        record.index <= MAX_INDEX,
    ensures
        is_well_formed(encode_line(record)),
{
    let token = decimal(record.index);
    let rest = record.content + comment_suffix(record.comment);
    let line = encode_line(record);
    let at = token.len() as int;
    lemma_decimal_denotes(record.index);
    assert(line =~= token + seq!['|'] + rest);
    assert(is_first(line, '|', at)) by {
        assert(line[at] == '|');
        assert forall|j: int| 0 <= j < at implies line[j] != '|' by {
            assert(line[j] == token[j]);
            assert(is_digit(token[j]));
        }
    }
    assert(line.take(at) =~= token);
    assert(token[0] != '+') by {
        assert(is_digit(token[0]));
    }
    lemma_decode_at(line, at);
    lemma_first_is_unique(line, '|', at, separator_of(line));
}

/// What decoding gives is faithful: a decoded record, encoded, decodes to
/// itself again.
pub proof fn lemma_decoded_is_faithful(line: Seq<char>)
    requires
        decode_line(line) is Ok,
    ensures
        is_faithful(decode_line(line)->Ok_0),
{
    let at = separator_of(line);
    let rest = line.skip(at + 1);
    let record = decode_line(line)->Ok_0;
    if has_token(rest) {
        let q = token_of(rest);
        assert(is_first_token(rest, q));
        assert forall|i: int| !token_at(record.content, i) by {
            if token_at(record.content, i) {
                assert(rest[i] == record.content[i]);
                assert(rest[i + 1] == record.content[i + 1]);
                assert(token_at(rest, i));
            }
        }
        if record.content.len() > 0 && record.content.last() == '?' {
            assert(rest[q - 1] == record.content.last());
            assert(token_at(rest, q - 1));
        }
    } else {
        assert forall|i: int| !token_at(record.content, i) by {
            if token_at(record.content, i) {
                lemma_token_has_first(rest, i);
            }
        }
    }
}

/// Where the token stands somewhere, it stands somewhere first.
pub proof fn lemma_token_has_first(s: Seq<char>, i: int)
    requires
        token_at(s, i),
    ensures
        has_token(s),
    decreases i,
{
    if forall|j: int| 0 <= j < i ==> !token_at(s, j) {
        assert(is_first_token(s, i));
    } else {
        let j = choose|j: int| 0 <= j < i && token_at(s, j);
        lemma_token_has_first(s, j);
    }
}

/// The position of the first `??` in `chars[from..]`, counted from `from`.
fn find_token(chars: &Vec<char>, from: usize) -> (found: Option<usize>)
    requires
        from <= chars.len(),
    ensures
        match found {
            Some(at) => is_first_token(chars@.skip(from as int), at as int),
            None => forall|j: int| !token_at(chars@.skip(from as int), j),
        },
{
    let ghost rest = chars@.skip(from as int);
    let mut i: usize = from;
    while i < chars.len() && i + 1 < chars.len()
        invariant
            from <= i <= chars.len(),
            rest == chars@.skip(from as int),
            forall|j: int| 0 <= j < i - from ==> !token_at(rest, j),
        decreases chars.len() - i,
    {
        if chars[i] == '?' && chars[i + 1] == '?' {
            proof {
                assert(rest[i - from] == chars@[i as int]);
                assert(rest[i - from + 1] == chars@[i + 1]);
            }
            return Some(i - from);
        }
        proof {
            assert(rest[i - from] == chars@[i as int]);
            assert(rest[i - from + 1] == chars@[i + 1]);
        }
        i += 1;
    }
    None
}

/// The index that `chars[..end]` denotes.
fn parse_index(chars: &Vec<char>, end: usize) -> (parsed: Option<u16>)
    requires
        end <= chars.len(),
    ensures
        match index_of(chars@.take(end as int)) {
            Some(index) => parsed == Some(index as u16),
            None => parsed is None,
        },
{
    let ghost token = chars@.take(end as int);
    let start: usize = if end > 0 && chars[0] == '+' {
        1
    } else {
        0
    };
    let ghost digits = digits_of(token);
    assert(digits =~= chars@.subrange(start as int, end as int));
    if start == end {
        return None;
    }
    let mut value: u32 = 0;
    let mut i: usize = start;
    while i < end
        invariant
            start <= i <= end <= chars.len(),
            digits == chars@.subrange(start as int, end as int),
            digits == digits_of(chars@.take(end as int)),
            all_digits(digits.take(i - start)),
            value == number_of(digits.take(i - start)),
            value <= MAX_INDEX,
        decreases end - i,
    {
        let c = chars[i];
        let ghost k = i - start;
        assert(digits[k] == c);
        if !(c >= '0' && c <= '9') {
            assert(!is_digit(digits[k]));
            return None;
        }
        value = value * 10 + (c as u32 - 48);
        proof {
            let next = digits.take(k + 1);
            assert(next.drop_last() =~= digits.take(k));
            assert(next.last() == c);
            assert(value == number_of(next));
            assert forall|j: int| 0 <= j < next.len() implies is_digit(#[trigger] next[j]) by {
                if j < k {
                    assert(next[j] == digits.take(k)[j]);
                }
            }
        }
        if value > MAX_INDEX as u32 {
            proof {
                if all_digits(digits) {
                    lemma_number_grows(digits, k + 1);
                }
            }
            return None;
        }
        i += 1;
    }
    assert(digits.take(i - start) =~= digits);
    Some(value as u16)
}

impl Entry {
    /// A record without a comment.
    pub fn new(index: u16, content: String) -> (entry: Entry)
        ensures
            entry@ == (Record { index: index as nat, content: content@, comment: None }),
    {
        Entry { index, content, comment: None }
    }

    /// A record with a comment.
    pub fn with_comment(index: u16, content: String, comment: String) -> (entry: Entry)
        ensures
            entry@ == (Record {
                index: index as nat,
                content: content@,
                comment: Some(comment@),
            }),
    {
        Entry { index, content, comment: Some(comment) }
    }

    /// Decodes one line: the record that `decode_line` gives for it, or the
    /// fault that it names.
    pub fn from_str(data: &str) -> (decoded: Result<Entry, DecodeFault>)
        ensures
            match decode_line(data@) {
                Ok(record) => decoded is Ok && decoded->Ok_0@ == record,
                Err(fault) => decoded == Err::<Entry, DecodeFault>(fault),
            },
    {
        let chars = chars_of(data);
        let at = match find_char(&chars, 0, '|') {
            Some(at) => at,
            None => {
                assert(chars@.skip(0) =~= chars@);
                return Err(DecodeFault::MissingSeparator);
            },
        };
        proof {
            assert(chars@.skip(0) =~= chars@);
            lemma_decode_at(chars@, at as int);
        }
        let index = match parse_index(&chars, at) {
            Some(index) => index,
            None => {
                return Err(DecodeFault::BadIndex);
            },
        };
        let ghost rest = chars@.skip(at + 1);
        match find_token(&chars, at + 1) {
            Some(q) => {
                let content = string_of(&chars, at + 1, at + 1 + q);
                let comment = string_of(&chars, at + 1 + q + 2, chars.len());
                proof {
                    lemma_split_at(index as nat, rest, q as int);
                    assert(content@ =~= rest.take(q as int));
                    assert(comment@ =~= rest.skip(q + 2));
                }
                Ok(Entry { index, content, comment: Some(comment) })
            },
            None => {
                let content = string_of(&chars, at + 1, chars.len());
                proof {
                    lemma_split_none(index as nat, rest);
                    assert(content@ =~= rest);
                }
                Ok(Entry { index, content, comment: None })
            },
        }
    }

    /// Encodes the record as its line.
    pub fn output_string(&self) -> (line: String)
        ensures
            line@ == encode_line(self@),
    {
        let mut line = String::new();
        push_decimal(&mut line, self.index as u64);
        line.push('|');
        line.append(self.content.as_str());
        match &self.comment {
            Some(comment) => {
                line.push('?');
                line.push('?');
                line.append(comment.as_str());
            },
            None => {},
        }
        assert(line@ =~= encode_line(self@));
        line
    }

    /// Encodes the record as its line, and gives the record up.
    pub fn into_output_string(self) -> (line: String)
        ensures
            line@ == encode_line(self@),
    {
        self.output_string()
    }

    /// The record as it is shown to the user: its content alone where `plain`
    /// is set, else as `display_line` writes it.
    pub fn display_string(&self, plain: bool) -> (shown: String)
        ensures
            shown@ == if plain {
                self@.content
            } else {
                display_line(self@)
            },
    {
        let mut shown = String::new();
        if plain {
            shown.append(self.content.as_str());
            assert(shown@ =~= self@.content);
        } else {
            push_decimal(&mut shown, self.index as u64);
            shown.push(' ');
            shown.push('|');
            shown.push(' ');
            shown.append(self.content.as_str());
            match &self.comment {
                Some(comment) => {
                    shown.push(' ');
                    shown.push('?');
                    shown.push('?');
                    shown.push(' ');
                    shown.append(comment.as_str());
                },
                None => {},
            }
            assert(shown@ =~= display_line(self@));
        }
        shown
    }

    /// A copy of the record.
    pub fn duplicate(&self) -> (copy: Entry)
        ensures
            copy@ == self@,
    {
        Entry {
            index: self.index,
            content: self.content.clone(),
            comment: match &self.comment {
                Some(comment) => Some(comment.clone()),
                None => None,
            },
        }
    }
}

/// A record as it is shown to the user: index, ` | `, content and, where it
/// has one, ` ?? ` and the comment.
pub open spec fn display_line(record: Record) -> Seq<char> {
    decimal(record.index) + seq![' ', '|', ' '] + record.content + match record.comment {
        Some(c) => seq![' ', '?', '?', ' '] + c,
        None => Seq::empty(),
    }
}

} // verus!

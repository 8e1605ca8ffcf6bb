use vstd::prelude::*;

use crate::stream::{ByteCursor, IoError};
use crate::text::utf8_string;
use vstd::utf8::{decode_utf8, valid_utf8};

verus! {

/// Outcome of a grammar rule on the front of some input, for contracts: what it matched and how
/// many bytes that took, or that the input ends before the rule can decide, or that it fails.
pub enum Rule<T> {
    Parsed(T, nat),
    Incomplete,
    Error,
}

/// Outcome of a parser on the front of its input: what it matched and how many bytes that took,
/// or that the input ends before the parser can decide, or that it fails.
#[derive(Debug, PartialEq, Eq)]
pub enum ParseResult<T> {
    Parsed(T, usize),
    Incomplete,
    Error,
}

/// `r` is the outcome `s` describes.
pub open spec fn agrees<T: View>(r: ParseResult<T>, s: Rule<T::V>) -> bool {
    match (r, s) {
        (ParseResult::Parsed(x, k), Rule::Parsed(v, n)) => x@ == v && k == n,
        (ParseResult::Incomplete, Rule::Incomplete) => true,
        (ParseResult::Error, Rule::Error) => true,
        _ => false,
    }
}

/// `r` is the outcome `s` describes, where only the length matters.
pub open spec fn agrees_len(r: ParseResult<()>, s: Rule<()>) -> bool {
    match (r, s) {
        (ParseResult::Parsed(_, k), Rule::Parsed(_, n)) => k == n,
        (ParseResult::Incomplete, Rule::Incomplete) => true,
        (ParseResult::Error, Rule::Error) => true,
        _ => false,
    }
}

pub const CR: u8 = 0x0d;

pub const LF: u8 = 0x0a;

/// A byte that may stand in a field name: printable, not a space, not a colon.
pub open spec fn is_name_byte(b: u8) -> bool {
    0x21 <= b <= 0x7e && b != 0x3a
}

/// Linear white space: a space or a tab.
pub open spec fn is_lwsp(b: u8) -> bool {
    b == 0x20 || b == 0x09
}

/// The first index at or after `from` whose byte is not a name byte, or the length.
pub open spec fn name_end(s: Seq<u8>, from: int) -> int
    decreases s.len() - from,
{
    if from < 0 || from >= s.len() || !is_name_byte(s[from]) {
        if from < 0 { 0 } else if from >= s.len() { s.len() as int } else { from }
    } else {
        name_end(s, from + 1)
    }
}

/// The first index at or after `from` whose byte is not linear white space, or the length.
pub open spec fn lwsp_end(s: Seq<u8>, from: int) -> int
    decreases s.len() - from,
{
    if from < 0 || from >= s.len() || !is_lwsp(s[from]) {
        if from < 0 { 0 } else if from >= s.len() { s.len() as int } else { from }
    } else {
        lwsp_end(s, from + 1)
    }
}

/// The first index at or after `from` where a CRLF starts.
pub open spec fn find_crlf(s: Seq<u8>, from: int) -> Option<int>
    decreases s.len() - from,
{
    if from < 0 || from + 1 >= s.len() {
        None
    } else if s[from] == CR && s[from + 1] == LF {
        Some(from)
    } else {
        find_crlf(s, from + 1)
    }
}

/// Where the closing quote of a quoted string stands, scanning from `from`: a backslash
/// escapes the byte after it, a bare CR ends the attempt.
pub open spec fn quote_end(s: Seq<u8>, from: int) -> Rule<int>
    decreases s.len() - from,
{
    if from < 0 || from >= s.len() {
        Rule::Incomplete
    } else if s[from] == 0x22 {
        Rule::Parsed(from, 0)
    } else if s[from] == 0x5c {
        if from + 1 >= s.len() {
            Rule::Incomplete
        } else {
            quote_end(s, from + 2)
        }
    } else if s[from] == CR {
        Rule::Error
    } else {
        quote_end(s, from + 1)
    }
}

/// A field name: one or more name bytes, followed by something else.
pub open spec fn field_name_rule(s: Seq<u8>) -> Rule<Seq<u8>> {
    let k = name_end(s, 0);
    if k == s.len() {
        Rule::Incomplete
    } else if k == 0 {
        Rule::Error
    } else {
        Rule::Parsed(s.take(k), k as nat)
    }
}

/// Optional linear white space, followed by something else.
pub open spec fn space_rule(s: Seq<u8>) -> Rule<()> {
    let k = lwsp_end(s, 0);
    if k == s.len() {
        Rule::Incomplete
    } else {
        Rule::Parsed((), k as nat)
    }
}

/// One or more linear white space bytes, followed by something else.
pub open spec fn lwsp_rule(s: Seq<u8>) -> Rule<()> {
    if s.len() == 0 {
        Rule::Incomplete
    } else if !is_lwsp(s[0]) {
        Rule::Error
    } else {
        space_rule(s)
    }
}

/// A CRLF.
pub open spec fn crlf_rule(s: Seq<u8>) -> Rule<()> {
    if s.len() >= 2 && s[0] == CR && s[1] == LF {
        Rule::Parsed((), 2)
    } else if s.len() == 0 || (s.len() == 1 && s[0] == CR) {
        Rule::Incomplete
    } else {
        Rule::Error
    }
}

/// A quoted string; its value is what stands between the quotes, escapes kept as written.
pub open spec fn quoted_string_rule(s: Seq<u8>) -> Rule<Seq<u8>> {
    if s.len() == 0 {
        Rule::Incomplete
    } else if s[0] != 0x22 {
        Rule::Error
    } else {
        match quote_end(s, 1) {
            Rule::Parsed(j, _) => Rule::Parsed(s.subrange(1, j), (j + 1) as nat),
            Rule::Incomplete => Rule::Incomplete,
            Rule::Error => Rule::Error,
        }
    }
}

/// Text up to the next CRLF.
pub open spec fn text_rule(s: Seq<u8>) -> Rule<Seq<u8>> {
    match find_crlf(s, 0) {
        Some(k) => Rule::Parsed(s.take(k), k as nat),
        None => Rule::Incomplete,
    }
}

/// The content of one physical line of a field body: a quoted string, else text.
pub open spec fn contents_rule(s: Seq<u8>) -> Rule<Seq<u8>> {
    match quoted_string_rule(s) {
        Rule::Error => text_rule(s),
        r => r,
    }
}

/// A field body: contents, then any continuation lines (CRLF and linear white space) whose
/// contents are joined on with nothing between.
pub open spec fn field_body_rule(s: Seq<u8>) -> Rule<Seq<u8>>
    decreases s.len(),
{
    match contents_rule(s) {
        Rule::Parsed(c, k) => {
            if k > s.len() {
                Rule::Error
            } else {
                let r = s.skip(k as int);
                match crlf_rule(r) {
                    Rule::Incomplete => Rule::Incomplete,
                    Rule::Error => Rule::Parsed(c, k),
                    Rule::Parsed(_, _) => {
                        let t = r.skip(2);
                        match lwsp_rule(t) {
                            Rule::Incomplete => Rule::Incomplete,
                            Rule::Error => Rule::Parsed(c, k),
                            Rule::Parsed(_, m) => {
                                if m > t.len() {
                                    Rule::Error
                                } else {
                                    match field_body_rule(t.skip(m as int)) {
                                        Rule::Parsed(c2, k2) => Rule::Parsed(
                                            c + c2,
                                            k + 2 + m + k2,
                                        ),
                                        Rule::Incomplete => Rule::Incomplete,
                                        Rule::Error => Rule::Parsed(c, k),
                                    }
                                }
                            },
                        }
                    },
                }
            }
        },
        Rule::Incomplete => Rule::Incomplete,
        Rule::Error => Rule::Error,
    }
}

/// A whole field: name, optional white space, colon, optional white space, body, CRLF.
#[verifier::opaque]
pub open spec fn field_rule(s: Seq<u8>) -> Rule<(Seq<u8>, Seq<u8>)> {
    match field_name_rule(s) {
        Rule::Parsed(name, a) => {
            let s1 = s.skip(a as int);
            match space_rule(s1) {
                Rule::Parsed(_, b) => {
                    let s2 = s1.skip(b as int);
                    if s2.len() == 0 {
                        Rule::Incomplete
                    } else if s2[0] != 0x3a {
                        Rule::Error
                    } else {
                        let s3 = s2.skip(1);
                        match space_rule(s3) {
                            Rule::Parsed(_, c) => {
                                let s4 = s3.skip(c as int);
                                match field_body_rule(s4) {
                                    Rule::Parsed(value, d) => {
                                        match crlf_rule(s4.skip(d as int)) {
                                            Rule::Parsed(_, _) => Rule::Parsed(
                                                (name, value),
                                                a + b + 1 + c + d + 2,
                                            ),
                                            Rule::Incomplete => Rule::Incomplete,
                                            Rule::Error => Rule::Error,
                                        }
                                    },
                                    Rule::Incomplete => Rule::Incomplete,
                                    Rule::Error => Rule::Error,
                                }
                            },
                            Rule::Incomplete => Rule::Incomplete,
                            Rule::Error => Rule::Error,
                        }
                    }
                },
                Rule::Incomplete => Rule::Incomplete,
                Rule::Error => Rule::Error,
            }
        },
        Rule::Incomplete => Rule::Incomplete,
        Rule::Error => Rule::Error,
    }
}

fn skip<'a>(s: &'a [u8], k: usize) -> (r: &'a [u8])
    requires
        k <= s@.len(),
    ensures
        r@ == s@.skip(k as int),
{
    let r = vstd::slice::slice_subrange(s, k, s.len());
    proof {
        assert(r@ =~= s@.skip(k as int));
    }
    r
}

/// A field name at the front of `input`.
pub fn field_name<'a>(input: &'a [u8]) -> (r: ParseResult<&'a [u8]>)
    ensures
        agrees(r, field_name_rule(input@)),
        r matches ParseResult::Parsed(_, k) ==> k <= input@.len(),
{
    let mut i: usize = 0;
    while i < input.len() && 0x21 <= input[i] && input[i] <= 0x7e && input[i] != 0x3a
        invariant
            i <= input@.len(),
            name_end(input@, 0) == name_end(input@, i as int),
        decreases input@.len() - i,
    {
        i = i + 1;
    }
    if i == input.len() {
        ParseResult::Incomplete
    } else if i == 0 {
        ParseResult::Error
    } else {
        let name = vstd::slice::slice_subrange(input, 0, i);
        proof {
            assert(name@ =~= input@.take(i as int));
        }
        ParseResult::Parsed(name, i)
    }
}

/// Optional linear white space at the front of `input`.
fn spaces(input: &[u8]) -> (r: ParseResult<()>)
    ensures
        agrees_len(r, space_rule(input@)),
        r matches ParseResult::Parsed(_, k) ==> k <= input@.len(),
{
    let mut i: usize = 0;
    while i < input.len() && (input[i] == 0x20 || input[i] == 0x09)
        invariant
            i <= input@.len(),
            lwsp_end(input@, 0) == lwsp_end(input@, i as int),
        decreases input@.len() - i,
    {
        i = i + 1;
    }
    if i == input.len() {
        ParseResult::Incomplete
    } else {
        ParseResult::Parsed((), i)
    }
}

/// One or more linear white space bytes at the front of `input`.
fn lwsp_chars(input: &[u8]) -> (r: ParseResult<()>)
    ensures
        agrees_len(r, lwsp_rule(input@)),
        r matches ParseResult::Parsed(_, k) ==> k <= input@.len(),
{
    if input.len() == 0 {
        ParseResult::Incomplete
    } else if !(input[0] == 0x20 || input[0] == 0x09) {
        ParseResult::Error
    } else {
        spaces(input)
    }
}

/// A CRLF at the front of `input`.
fn crlf(input: &[u8]) -> (r: ParseResult<()>)
    ensures
        agrees_len(r, crlf_rule(input@)),
        r matches ParseResult::Parsed(_, k) ==> k <= input@.len(),
{
    if input.len() >= 2 && input[0] == CR && input[1] == LF {
        ParseResult::Parsed((), 2)
    } else if input.len() == 0 || (input.len() == 1 && input[0] == CR) {
        ParseResult::Incomplete
    } else {
        ParseResult::Error
    }
}

/// A quoted string at the front of `input`; its value is what stands between the quotes.
pub fn quoted_string<'a>(input: &'a [u8]) -> (r: ParseResult<&'a [u8]>)
    ensures
        agrees(r, quoted_string_rule(input@)),
        r matches ParseResult::Parsed(_, k) ==> k <= input@.len(),
{
    if input.len() == 0 {
        return ParseResult::Incomplete;
    }
    if input[0] != 0x22 {
        return ParseResult::Error;
    }
    let mut j: usize = 1;
    while j < input.len() && input[j] != 0x22 && input[j] != CR && !(input[j] == 0x5c && j + 1
        >= input.len())
        invariant
            1 <= j <= input@.len() + 1,
            quote_end(input@, 1) == quote_end(input@, j as int),
        decreases input@.len() + 1 - j,
    {
        if input[j] == 0x5c {
            j = j + 2;
        } else {
            j = j + 1;
        }
    }
    if j >= input.len() {
        ParseResult::Incomplete
    } else if input[j] == 0x22 {
        let value = vstd::slice::slice_subrange(input, 1, j);
        ParseResult::Parsed(value, j + 1)
    } else if input[j] == CR {
        ParseResult::Error
    } else {
        ParseResult::Incomplete
    }
}

/// Text up to the next CRLF at the front of `input`.
pub fn text<'a>(input: &'a [u8]) -> (r: ParseResult<&'a [u8]>)
    ensures
        agrees(r, text_rule(input@)),
        r matches ParseResult::Parsed(_, k) ==> k <= input@.len(),
{
    let mut i: usize = 0;
    while i < input.len() && i + 1 < input.len() && !(input[i] == CR && input[i + 1] == LF)
        invariant
            i <= input@.len(),
            find_crlf(input@, 0) == find_crlf(input@, i as int),
        decreases input@.len() - i,
    {
        i = i + 1;
    }
    if i < input.len() && i + 1 < input.len() {
        let t = vstd::slice::slice_subrange(input, 0, i);
        proof {
            assert(t@ =~= input@.take(i as int));
        }
        ParseResult::Parsed(t, i)
    } else {
        ParseResult::Incomplete
    }
}

/// The content of one physical line of a field body: a quoted string, else text.
pub fn field_body_contents<'a>(input: &'a [u8]) -> (r: ParseResult<&'a [u8]>)
    ensures
        agrees(r, contents_rule(input@)),
        r matches ParseResult::Parsed(_, k) ==> k <= input@.len(),
{
    match quoted_string(input) {
        ParseResult::Error => text(input),
        r => r,
    }
}

/// A field body at the front of `input`, continuation lines joined on.
pub fn field_body(input: &[u8]) -> (r: ParseResult<Vec<u8>>)
    ensures
        agrees(r, field_body_rule(input@)),
        r matches ParseResult::Parsed(_, k) ==> k <= input@.len(),
    decreases input@.len(),
{
    let len = input.len();
    match field_body_contents(input) {
        ParseResult::Parsed(c, k) => {
            let rest = skip(input, k);
            match crlf(rest) {
                ParseResult::Incomplete => ParseResult::Incomplete,
                ParseResult::Error => ParseResult::Parsed(vstd::slice::slice_to_vec(c), k),
                ParseResult::Parsed(_, _) => {
                    assert(rest@.len() >= 2);
                    let t = skip(rest, 2);
                    assert(t@.len() == input@.len() - k - 2);
                    match lwsp_chars(t) {
                        ParseResult::Incomplete => ParseResult::Incomplete,
                        ParseResult::Error => ParseResult::Parsed(vstd::slice::slice_to_vec(c), k),
                        ParseResult::Parsed(_, m) => {
                            match field_body(skip(t, m)) {
                                ParseResult::Parsed(mut c2, k2) => {
                                    assert(k2 <= t@.len() - m);
                                    let mut v = vstd::slice::slice_to_vec(c);
                                    v.append(&mut c2);
                                    ParseResult::Parsed(v, k + 2 + m + k2)
                                },
                                ParseResult::Incomplete => ParseResult::Incomplete,
                                ParseResult::Error => ParseResult::Parsed(
                                    vstd::slice::slice_to_vec(c),
                                    k,
                                ),
                            }
                        },
                    }
                },
            }
        },
        ParseResult::Incomplete => ParseResult::Incomplete,
        ParseResult::Error => ParseResult::Error,
    }
}

/// A whole field at the front of `input`: its name and its body.
pub fn field<'a>(input: &'a [u8]) -> (r: ParseResult<(&'a [u8], Vec<u8>)>)
    ensures
        agrees(r, field_rule(input@)),
        r matches ParseResult::Parsed(_, k) ==> 0 < k <= input@.len(),
{
    proof {
        reveal(field_rule);
    }
    let len = input.len();
    let (name, a) = match field_name(input) {
        ParseResult::Parsed(name, a) => (name, a),
        ParseResult::Incomplete => {
            return ParseResult::Incomplete;
        },
        ParseResult::Error => {
            return ParseResult::Error;
        },
    };
    let s1 = skip(input, a);
    let b = match spaces(s1) {
        ParseResult::Parsed(_, b) => b,
        ParseResult::Incomplete => {
            return ParseResult::Incomplete;
        },
        ParseResult::Error => {
            return ParseResult::Error;
        },
    };
    let s2 = skip(s1, b);
    if s2.len() == 0 {
        return ParseResult::Incomplete;
    }
    if s2[0] != 0x3a {
        return ParseResult::Error;
    }
    let s3 = skip(s2, 1);
    let c = match spaces(s3) {
        ParseResult::Parsed(_, c) => c,
        ParseResult::Incomplete => {
            return ParseResult::Incomplete;
        },
        ParseResult::Error => {
            return ParseResult::Error;
        },
    };
    let s4 = skip(s3, c);
    let (value, d) = match field_body(s4) {
        ParseResult::Parsed(value, d) => (value, d),
        ParseResult::Incomplete => {
            return ParseResult::Incomplete;
        },
        ParseResult::Error => {
            return ParseResult::Error;
        },
    };
    let s5 = skip(s4, d);
    match crlf(s5) {
        ParseResult::Parsed(_, _) => {
            assert(s5@.len() >= 2);
            assert(s5@.len() == input@.len() - a - b - 1 - c - d);
            ParseResult::Parsed((name, value), a + b + 1 + c + d + 2)
        },
        ParseResult::Incomplete => ParseResult::Incomplete,
        ParseResult::Error => ParseResult::Error,
    }
}

/// Why a header block could not be read.
#[derive(Debug, Clone, Copy, PartialEq, Eq)]
pub enum Error {
    /// The block breaks the field grammar.
    Parsing,
    /// The stream ended inside the block, or a field is not UTF-8.
    IO(IoError),
}

/// A field name and its value.
pub type Field = (Seq<char>, Seq<char>);

/// `entries` without those named `name`.
pub open spec fn without(entries: Seq<Field>, name: Seq<char>) -> Seq<Field>
    decreases entries.len(),
{
    if entries.len() == 0 {
        entries
    } else {
        let rest = without(entries.drop_last(), name);
        if entries.last().0 == name {
            rest
        } else {
            rest.push(entries.last())
        }
    }
}

/// `entries` after a field `name` is given `value`: an earlier value of that name is dropped.
pub open spec fn with_field(entries: Seq<Field>, name: Seq<char>, value: Seq<char>) -> Seq<Field> {
    without(entries, name).push((name, value))
}

/// The entries that fields given in order leave.
pub open spec fn collect_fields(fields: Seq<Field>) -> Seq<Field>
    decreases fields.len(),
{
    if fields.len() == 0 {
        Seq::empty()
    } else {
        with_field(collect_fields(fields.drop_last()), fields.last().0, fields.last().1)
    }
}

/// The value of the last entry named `name`.
pub open spec fn lookup(entries: Seq<Field>, name: Seq<char>) -> Option<Seq<char>>
    decreases entries.len(),
{
    if entries.len() == 0 {
        None
    } else if entries.last().0 == name {
        Some(entries.last().1)
    } else {
        lookup(entries.drop_last(), name)
    }
}

/// The value of the last entry whose name is `name` up to the case of ASCII letters.
pub open spec fn lookup_ignore_case(entries: Seq<Field>, name: Seq<char>) -> Option<Seq<char>>
    decreases entries.len(),
{
    if entries.len() == 0 {
        None
    } else if crate::text::eq_ignore_ascii_case(entries.last().0, name) {
        Some(entries.last().1)
    } else {
        lookup_ignore_case(entries.drop_last(), name)
    }
}

/// The fields of a header block at the front of `s`, in order, and the bytes the block takes
/// with its closing empty line. The block also ends where the stream does.
pub open spec fn header_block(s: Seq<u8>) -> Result<(Seq<Field>, nat), Error>
    decreases s.len(),
{
    if s.len() == 0 {
        Ok((Seq::empty(), 0))
    } else if s.len() >= 2 && s[0] == CR && s[1] == LF {
        Ok((Seq::empty(), 2))
    } else {
        match field_rule(s) {
            Rule::Parsed((name, value), k) => {
                if !valid_utf8(name) || !valid_utf8(value) {
                    Err(Error::IO(IoError::InvalidData))
                } else if k == 0 || k > s.len() {
                    Err(Error::Parsing)
                } else {
                    match header_block(s.skip(k as int)) {
                        Ok((fields, k2)) => Ok(
                            (seq![(decode_utf8(name), decode_utf8(value))] + fields, k + k2),
                        ),
                        Err(e) => Err(e),
                    }
                }
            },
            Rule::Incomplete => Err(Error::IO(IoError::UnexpectedEof)),
            Rule::Error => Err(Error::Parsing),
        }
    }
}

/// Header fields by name; giving a name a value again replaces the earlier one.
pub struct Headers {
    entries: Vec<(String, String)>,
}

pub open spec fn entry_view(e: (String, String)) -> Field {
    (e.0@, e.1@)
}

impl View for Headers {
    type V = Seq<Field>;

    /// The entries, oldest first.
    closed spec fn view(&self) -> Seq<Field> {
        self.entries@.map_values(|e: (String, String)| entry_view(e))
    }
}

impl Headers {
    pub fn new() -> (r: Self)
        ensures
            r@ == Seq::<Field>::empty(),
    {
        let r = Headers { entries: Vec::new() };
        proof {
            assert(r@ =~= Seq::<Field>::empty());
        }
        r
    }

    /// Number of distinct names.
    pub fn len(&self) -> (r: usize)
        ensures
            r == self@.len(),
    {
        self.entries.len()
    }

    /// Gives the field `name` the value `value`.
    pub fn insert(&mut self, name: String, value: String)
        ensures
            final(self)@ == with_field(old(self)@, name@, value@),
    {
        let ghost old_view = self@;
        let mut kept: Vec<(String, String)> = Vec::new();
        let mut j: usize = 0;
        while j < self.entries.len()
            invariant
                j <= self.entries@.len(),
                self@ == old_view,
                old_view == self.entries@.map_values(|e: (String, String)| entry_view(e)),
                kept@.map_values(|e: (String, String)| entry_view(e)) == without(
                    old_view.take(j as int),
                    name@,
                ),
            decreases self.entries@.len() - j,
        {
            proof {
                assert(old_view.take(j + 1).drop_last() =~= old_view.take(j as int));
            }
            if !(self.entries[j].0 == name) {
                let n = self.entries[j].0.clone();
                let v = self.entries[j].1.clone();
                kept.push((n, v));
            }
            j = j + 1;
            proof {
                assert(kept@.map_values(|e: (String, String)| entry_view(e)) =~= without(
                    old_view.take(j as int),
                    name@,
                ));
            }
        }
        kept.push((name, value));
        self.entries = kept;
        proof {
            assert(old_view.take(j as int) =~= old_view);
            assert(self@ =~= with_field(old_view, name@, value@));
        }
    }

    /// The value of the field `name`.
    pub fn get(&self, name: &str) -> (r: Option<&String>)
        ensures
            match lookup(self@, name@) {
                Some(v) => r matches Some(s) && s@ == v,
                None => r is None,
            },
    {
        let key = name.to_owned();
        let mut j: usize = self.entries.len();
        proof {
            assert(self@.take(j as int) =~= self@);
        }
        while j > 0
            invariant
                j <= self.entries@.len(),
                key@ == name@,
                lookup(self@, name@) == lookup(self@.take(j as int), name@),
            decreases j,
        {
            proof {
                assert(self@.take(j as int).drop_last() =~= self@.take(j - 1));
            }
            j = j - 1;
            if self.entries[j].0 == key {
                return Some(&self.entries[j].1);
            }
        }
        None
    }

    /// The value of the field `name`, the case of ASCII letters aside.
    pub fn get_ignore_case(&self, name: &str) -> (r: Option<&String>)
        ensures
            match lookup_ignore_case(self@, name@) {
                Some(v) => r matches Some(s) && s@ == v,
                None => r is None,
            },
    {
        let mut j: usize = self.entries.len();
        proof {
            assert(self@.take(j as int) =~= self@);
        }
        while j > 0
            invariant
                j <= self.entries@.len(),
                lookup_ignore_case(self@, name@) == lookup_ignore_case(self@.take(j as int), name@),
            decreases j,
        {
            proof {
                assert(self@.take(j as int).drop_last() =~= self@.take(j - 1));
            }
            j = j - 1;
            if crate::text::str_eq_ignore_ascii_case(self.entries[j].0.as_str(), name) {
                return Some(&self.entries[j].1);
            }
        }
        None
    }
}

/// Reads one field from the front of `reader`.
fn read_header(reader: &mut ByteCursor) -> (r: Result<(String, String), Error>)
    requires
        old(reader).wf(),
    ensures
        final(reader).wf(),
        final(reader).data() == old(reader).data(),
        match field_rule(old(reader).rest()) {
            Rule::Parsed((name, value), k) => if !valid_utf8(name) || !valid_utf8(value) {
                r == Err::<(String, String), Error>(Error::IO(IoError::InvalidData))
            } else {
                r matches Ok((n, v)) && n@ == decode_utf8(name) && v@ == decode_utf8(value)
                    && final(reader).pos() == old(reader).pos() + k && 0 < k
            },
            Rule::Incomplete => r == Err::<(String, String), Error>(Error::IO(IoError::UnexpectedEof)),
            Rule::Error => r == Err::<(String, String), Error>(Error::Parsing),
        },
{
    let input = reader.remaining();
    match field(input) {
        ParseResult::Parsed((name, value), k) => {
            let name = utf8_string(vstd::slice::slice_to_vec(name));
            let value = utf8_string(value);
            match (name, value) {
                (Some(n), Some(v)) => {
                    reader.advance(k);
                    Ok((n, v))
                },
                _ => Err(Error::IO(IoError::InvalidData)),
            }
        },
        ParseResult::Incomplete => Err(Error::IO(IoError::UnexpectedEof)),
        ParseResult::Error => Err(Error::Parsing),
    }
}

/// Reads a header block from the front of `reader`, through its closing empty line.
pub fn read_headers(reader: &mut ByteCursor) -> (r: Result<Headers, Error>)
    requires
        old(reader).wf(),
    ensures
        final(reader).wf(),
        final(reader).data() == old(reader).data(),
        match header_block(old(reader).rest()) {
            Ok((fields, k)) => r matches Ok(h) && h@ == collect_fields(fields) && final(reader).pos()
                == old(reader).pos() + k,
            Err(e) => r == Err::<Headers, Error>(e),
        },
{
    let mut headers = Headers::new();
    let ghost s0 = reader.rest();
    let ghost p0 = reader.pos();
    let ghost mut done: Seq<Field> = Seq::empty();
    loop
        invariant
            reader.wf(),
            reader.data() == old(reader).data(),
            s0 == old(reader).rest(),
            p0 == old(reader).pos(),
            reader.pos() >= p0,
            headers@ == collect_fields(done),
            header_block(s0) == match header_block(reader.rest()) {
                Ok((fields, k)) => Ok::<(Seq<Field>, nat), Error>(
                    (done + fields, (reader.pos() - p0 + k) as nat),
                ),
                Err(e) => Err(e),
            },
        decreases reader.rest().len(),
    {
        let rest = reader.remaining();
        if rest.len() == 0 {
            proof {
                assert(done + Seq::<Field>::empty() =~= done);
            }
            return Ok(headers);
        }
        if rest.len() >= 2 && rest[0] == CR && rest[1] == LF {
            reader.advance(2);
            proof {
                assert(done + Seq::<Field>::empty() =~= done);
            }
            return Ok(headers);
        }
        let ghost before = reader.rest();
        let (name, value) = match read_header(reader) {
            Ok(f) => f,
            Err(e) => {
                return Err(e);
            },
        };
        proof {
            let k = (reader.pos() - old(reader).pos()) as nat;
            let kk = field_rule(before)->Parsed_1;
            assert(before.skip(kk as int) =~= reader.rest());
            let x = (name@, value@);
            assert(done.push(x).drop_last() =~= done);
            match header_block(reader.rest()) {
                Ok((fields, k2)) => {
                    assert(done + (seq![x] + fields) =~= done.push(x) + fields);
                },
                Err(_) => {},
            }
            done = done.push(x);
        }
        headers.insert(name, value);
    }
}

} // verus!

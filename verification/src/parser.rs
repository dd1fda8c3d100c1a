//! The grammar of a raw request.
//!
//! ```text
//! request    := space* method space* path ["?"] param* space* "HTTP/1.1" space* header* body
//! method     := "GET" | "POST"
//! path       := any run of bytes other than "?", " ", CR and LF
//! param      := identifier ["="] [identifier]
//! identifier := a letter, then any run of bytes other than LF, CR, " ", "?", "=" and "&"
//! header     := the bytes up to the next CR LF, then CR LF
//! body       := the rest
//! ```
//!
//! Every run is as long as it can be, and parameters and header lines are
//! taken for as long as there are any.

use crate::http::{param_map, HttpRequest};
use crate::wire::texts;
use vstd::prelude::*;
use vstd::utf8::{decode_utf8, encode_utf8, valid_utf8};

verus! {

/// A kind of byte run in a request.
#[derive(Debug, Clone, Copy)]
pub enum Run {
    /// Spaces, tabs, carriage returns and line feeds.
    Spaces,
    /// The bytes of a path.
    Path,
    /// The bytes of an identifier after its first.
    Identifier,
}

/// The byte is a space, a tab, a carriage return or a line feed.
pub open spec fn is_space(c: u8) -> bool {
    c == 32 || c == 9 || c == 13 || c == 10
}

/// The byte ends a path: `?`, a space, a carriage return or a line feed.
pub open spec fn ends_path(c: u8) -> bool {
    c == 63 || c == 32 || c == 13 || c == 10
}

/// The byte ends an identifier: a line feed, a carriage return, a space,
/// `?`, `=` or `&`.
pub open spec fn ends_identifier(c: u8) -> bool {
    c == 10 || c == 13 || c == 32 || c == 63 || c == 61 || c == 38
}

/// The byte is an ASCII letter.
pub open spec fn is_letter(c: u8) -> bool {
    (65 <= c <= 90) || (97 <= c <= 122)
}

/// The byte may stand in a run of the kind given.
pub open spec fn belongs(run: Run, c: u8) -> bool {
    match run {
        Run::Spaces => is_space(c),
        Run::Path => !ends_path(c),
        Run::Identifier => !ends_identifier(c),
    }
}

/// Where the longest run of the kind given that starts at `from` ends.
pub open spec fn run_end(s: Seq<u8>, from: int, run: Run) -> int
    decreases s.len() - from,
{
    if 0 <= from < s.len() && belongs(run, s[from]) {
        run_end(s, from + 1, run)
    } else {
        from
    }
}

/// The bytes of `word` stand in `s` at `at`.
pub open spec fn has_word(s: Seq<u8>, at: int, word: Seq<u8>) -> bool {
    &&& 0 <= at
    &&& at + word.len() <= s.len()
    &&& s.subrange(at, at + word.len()) == word
}

/// Where the first carriage return and line feed at or after `from` start.
pub open spec fn line_end(s: Seq<u8>, from: int) -> Option<int>
    decreases s.len() - from,
{
    if from < 0 || from + 2 > s.len() {
        None
    } else if s[from] == 13 && s[from + 1] == 10 {
        Some(from)
    } else {
        line_end(s, from + 1)
    }
}

/// The header lines from `from` on, without their line ends, and where the
/// body starts.
pub open spec fn headers_from(s: Seq<u8>, from: int) -> (Seq<Seq<u8>>, int)
    decreases s.len() - from,
{
    match line_end(s, from) {
        Some(end) => if from <= end && end + 2 <= s.len() {
            let (rest, body) = headers_from(s, end + 2);
            (seq![s.subrange(from, end)] + rest, body)
        } else {
            (Seq::empty(), from)
        },
        None => (Seq::empty(), from),
    }
}

/// Where the identifier that starts at `at` ends, if one starts there.
pub open spec fn identifier_end(s: Seq<u8>, at: int) -> Option<int> {
    if 0 <= at < s.len() && is_letter(s[at]) {
        Some(run_end(s, at + 1, Run::Identifier))
    } else {
        None
    }
}

/// The parameter that starts at `at`, if one does: its name, its value
/// (empty where it has none) and where it ends.
pub open spec fn param_at(s: Seq<u8>, at: int) -> Option<(Seq<u8>, Seq<u8>, int)> {
    match identifier_end(s, at) {
        Some(name_end) => {
            let value_start = if name_end < s.len() && s[name_end] == 61 {
                name_end + 1
            } else {
                name_end
            };
            match identifier_end(s, value_start) {
                Some(value_end) => Some(
                    (s.subrange(at, name_end), s.subrange(value_start, value_end), value_end),
                ),
                None => Some((s.subrange(at, name_end), Seq::empty(), value_start)),
            }
        },
        None => None,
    }
}

/// The parameters from `from` on, and where they end.
pub open spec fn params_from(s: Seq<u8>, from: int) -> (Seq<(Seq<u8>, Seq<u8>)>, int)
    decreases s.len() - from,
{
    match param_at(s, from) {
        Some((name, value, end)) => if from < end <= s.len() {
            let (rest, stop) = params_from(s, end);
            (seq![(name, value)] + rest, stop)
        } else {
            (Seq::empty(), from)
        },
        None => (Seq::empty(), from),
    }
}

/// The method that stands at `at`, if one does, and where it ends.
pub open spec fn method_at(s: Seq<u8>, at: int) -> Option<(Seq<char>, int)> {
    if has_word(s, at, encode_utf8("GET"@)) {
        Some(("GET"@, at + encode_utf8("GET"@).len()))
    } else if has_word(s, at, encode_utf8("POST"@)) {
        Some(("POST"@, at + encode_utf8("POST"@).len()))
    } else {
        None
    }
}

/// The parts of a request, as they stand in its bytes.
pub struct RawRequest {
    pub method: Seq<char>,
    pub path: Seq<u8>,
    pub params: Seq<(Seq<u8>, Seq<u8>)>,
    pub headers: Seq<Seq<u8>>,
    pub body: Seq<u8>,
}

/// The parts of the request that the bytes hold, if they hold one.
pub open spec fn grammar(s: Seq<u8>) -> Option<RawRequest> {
    match method_at(s, run_end(s, 0, Run::Spaces)) {
        Some((method, method_end)) => {
            let path_start = run_end(s, method_end, Run::Spaces);
            let path_end = run_end(s, path_start, Run::Path);
            let params_start = if path_end < s.len() && s[path_end] == 63 {
                path_end + 1
            } else {
                path_end
            };
            let (params, params_end) = params_from(s, params_start);
            let version_start = run_end(s, params_end, Run::Spaces);
            if has_word(s, version_start, encode_utf8("HTTP/1.1"@)) {
                let headers_start = run_end(
                    s,
                    version_start + encode_utf8("HTTP/1.1"@).len(),
                    Run::Spaces,
                );
                let (headers, body_start) = headers_from(s, headers_start);
                Some(
                    RawRequest {
                        method,
                        path: s.subrange(path_start, path_end),
                        params,
                        headers,
                        body: s.subrange(body_start, s.len() as int),
                    },
                )
            } else {
                None
            }
        },
        None => None,
    }
}

/// The text of an identifier: each byte stands for the character of the same
/// number.
pub open spec fn byte_chars(bytes: Seq<u8>) -> Seq<char> {
    bytes.map_values(|c: u8| c as char)
}

/// The parameters by name, each with the text of its value; the last value
/// of a name counts.
pub open spec fn raw_param_map(params: Seq<(Seq<u8>, Seq<u8>)>) -> Map<Seq<char>, Seq<char>>
    decreases params.len(),
{
    if params.len() == 0 {
        Map::empty()
    } else {
        raw_param_map(params.drop_last()).insert(
            byte_chars(params.last().0),
            byte_chars(params.last().1),
        )
    }
}

/// The texts of the values of a parameter map.
pub open spec fn value_texts(params: Map<Seq<char>, String>) -> Map<Seq<char>, Seq<char>> {
    params.map_values(|v: String| v@)
}

/// The path, every header line and the body are UTF-8.
pub open spec fn is_text(raw: RawRequest) -> bool {
    &&& valid_utf8(raw.path)
    &&& forall|i: int| 0 <= i < raw.headers.len() ==> valid_utf8(#[trigger] raw.headers[i])
    &&& valid_utf8(raw.body)
}

/// The request holds the parts given, as text.
pub open spec fn reads(req: HttpRequest, raw: RawRequest) -> bool {
    &&& req.method@ == raw.method
    &&& req.path@ == decode_utf8(raw.path)
    &&& value_texts(req.params@) == raw_param_map(raw.params)
    &&& texts(req.headers@) == raw.headers.map_values(|h: Seq<u8>| decode_utf8(h))
    &&& req.body@ == decode_utf8(raw.body)
}

/// Whether a byte ends a path.
pub fn is_end_of_path(c: u8) -> (r: bool)
    ensures
        r == ends_path(c),
{
    c == 63 || c == 32 || c == 13 || c == 10
}

/// Whether a byte ends an identifier.
pub fn is_end_of_identifier(c: u8) -> (r: bool)
    ensures
        r == ends_identifier(c),
{
    c == 38 || c == 32 || c == 13 || c == 10 || c == 61 || c == 63
}

fn in_run(run: Run, c: u8) -> (r: bool)
    ensures
        r == belongs(run, c),
{
    match run {
        Run::Spaces => c == 32 || c == 9 || c == 13 || c == 10,
        Run::Path => !is_end_of_path(c),
        Run::Identifier => !is_end_of_identifier(c),
    }
}

fn scan(input: &[u8], from: usize, run: Run) -> (to: usize)
    requires
        from <= input@.len(),
    ensures
        to == run_end(input@, from as int, run),
        from <= to <= input@.len(),
{
    let mut i: usize = from;
    while i < input.len() && in_run(run, input[i])
        invariant
            from <= i <= input@.len(),
            run_end(input@, from as int, run) == run_end(input@, i as int, run),
        decreases input@.len() - i,
    {
        i = i + 1;
    }
    i
}

fn word_end_at(input: &[u8], at: usize, word: &str) -> (r: Option<usize>)
    requires
        at <= input@.len(),
    ensures
        match r {
            Some(end) => has_word(input@, at as int, encode_utf8(word@)) && end == at
                + encode_utf8(word@).len(),
            None => !has_word(input@, at as int, encode_utf8(word@)),
        },
{
    let bytes = word.as_bytes();
    let n = bytes.len();
    if n > input.len() - at {
        return None;
    }
    let mut i: usize = 0;
    while i < n
        invariant
            i <= n,
            n == bytes@.len(),
            bytes@ == encode_utf8(word@),
            at + n <= input@.len() <= usize::MAX,
            forall|j: int| 0 <= j < i ==> input@[at + j] == bytes@[j],
        decreases n - i,
    {
        if input[at + i] != bytes[i] {
            assert(input@.subrange(at as int, at + n)[i as int] != bytes@[i as int]);
            return None;
        }
        i = i + 1;
    }
    assert(input@.subrange(at as int, at + n) =~= bytes@);
    Some(at + n)
}

fn find_line_end(input: &[u8], from: usize) -> (r: Option<usize>)
    requires
        from <= input@.len(),
    ensures
        match r {
            Some(end) => line_end(input@, from as int) == Some(end as int) && from <= end && end
                + 2 <= input@.len(),
            None => line_end(input@, from as int) is None,
        },
{
    let n = input.len();
    let mut i: usize = from;
    while n - i >= 2
        invariant
            n == input@.len(),
            from <= i <= n,
            line_end(input@, from as int) == line_end(input@, i as int),
        decreases input@.len() - i,
    {
        if input[i] == 13 && input[i + 1] == 10 {
            return Some(i);
        }
        i = i + 1;
    }
    None
}

/// Calls `String::from_utf8` on a copy of the bytes: the text whose UTF-8
/// encoding the bytes are, or `None` where they are no UTF-8.
#[verifier::external_body]
fn text_from_utf8(bytes: &[u8]) -> (r: Option<String>)
    ensures
        match r {
            Some(text) => valid_utf8(bytes@) && encode_utf8(text@) == bytes@,
            None => !valid_utf8(bytes@),
        },
{
    String::from_utf8(bytes.to_vec()).ok()
}

/// Calls `String::push`: appends one character.
#[verifier::external_body]
fn push_char(text: &mut String, c: char)
    ensures
        final(text)@ == old(text)@.push(c),
{
    text.push(c)
}

/// Converts bytes that are UTF-8 to text.
pub fn utf8_to_string(bytes: &[u8]) -> (r: String)
    requires
        valid_utf8(bytes@),
    ensures
        r@ == decode_utf8(bytes@),
        encode_utf8(r@) == bytes@,
{
    match text_from_utf8(bytes) {
        Some(text) => {
            proof {
                vstd::utf8::encode_utf8_decode_utf8(text@);
            }
            text
        },
        None => String::new(),
    }
}

fn text_between(input: &[u8], from: usize, to: usize) -> (r: Option<String>)
    requires
        from <= to <= input@.len(),
    ensures
        match r {
            Some(text) => valid_utf8(input@.subrange(from as int, to as int)) && text@
                == decode_utf8(input@.subrange(from as int, to as int)),
            None => !valid_utf8(input@.subrange(from as int, to as int)),
        },
{
    let piece = vstd::slice::slice_subrange(input, from, to);
    match text_from_utf8(piece) {
        Some(text) => {
            proof {
                vstd::utf8::encode_utf8_decode_utf8(text@);
            }
            Some(text)
        },
        None => None,
    }
}

fn identifier_between(input: &[u8], from: usize, to: usize) -> (r: String)
    requires
        from <= to <= input@.len(),
    ensures
        r@ == byte_chars(input@.subrange(from as int, to as int)),
{
    let mut text = String::new();
    let mut i: usize = from;
    while i < to
        invariant
            from <= i <= to <= input@.len(),
            text@ == byte_chars(input@.subrange(from as int, i as int)),
        decreases to - i,
    {
        push_char(&mut text, input[i] as char);
        assert(text@ =~= byte_chars(input@.subrange(from as int, i + 1)));
        i = i + 1;
    }
    text
}

fn find_identifier_end(input: &[u8], at: usize) -> (r: Option<usize>)
    requires
        at <= input@.len(),
    ensures
        match r {
            Some(end) => identifier_end(input@, at as int) == Some(end as int) && at < end
                <= input@.len(),
            None => identifier_end(input@, at as int) is None,
        },
{
    if at < input.len() && ((65 <= input[at] && input[at] <= 90) || (97 <= input[at] && input[at]
        <= 122)) {
        Some(scan(input, at + 1, Run::Identifier))
    } else {
        None
    }
}

/// The texts of those lines that are UTF-8, one after the other.
pub open spec fn lines_text(lines: Seq<Seq<u8>>) -> Seq<char>
    decreases lines.len(),
{
    if lines.len() == 0 {
        Seq::empty()
    } else if valid_utf8(lines.last()) {
        lines_text(lines.drop_last()) + decode_utf8(lines.last())
    } else {
        lines_text(lines.drop_last())
    }
}

/// Joins the lines that are UTF-8 into one text and leaves out the others.
pub fn concat_lines(lines: Vec<&[u8]>) -> (r: String)
    ensures
        r@ == lines_text(lines@.map_values(|line: &[u8]| line@)),
{
    let ghost all = lines@.map_values(|line: &[u8]| line@);
    let mut ret = String::new();
    let mut i: usize = 0;
    assert(all.take(0) =~= Seq::<Seq<u8>>::empty());
    while i < lines.len()
        invariant
            i <= lines.len(),
            all == lines@.map_values(|line: &[u8]| line@),
            ret@ == lines_text(all.take(i as int)),
        decreases lines.len() - i,
    {
        proof {
            let grown = all.take(i + 1);
            assert(grown.drop_last() =~= all.take(i as int));
            assert(grown.last() == lines@[i as int]@);
        }
        let line = lines[i];
        match text_between(line, 0, line.len()) {
            Some(text) => {
                assert(line@.subrange(0, line@.len() as int) =~= line@);
                ret.append(text.as_str());
            },
            None => {
                assert(line@.subrange(0, line@.len() as int) =~= line@);
            },
        }
        i = i + 1;
    }
    assert(all.take(i as int) =~= all);
    ret
}

/// Where a parse of parameters or header lines has got to, against the
/// whole: what was collected so far, followed by what the rest holds.
pub open spec fn continues<A>(whole: (Seq<A>, int), collected: Seq<A>, rest: (Seq<A>, int)) -> bool {
    whole.0 == collected + rest.0 && whole.1 == rest.1
}

/// Reads a request from its bytes. The result is `None` where the bytes do
/// not follow the grammar, or where the path, a header line or the body is
/// not UTF-8.
pub fn parse_request(input: &[u8]) -> (r: Option<HttpRequest>)
    ensures
        match r {
            Some(req) => grammar(input@) matches Some(raw) && is_text(raw) && reads(req, raw),
            None => !(grammar(input@) matches Some(raw) && is_text(raw)),
        },
{
    let ghost s = input@;
    let n = input.len();
    let method_start = scan(input, 0, Run::Spaces);
    let (method, method_end) = match word_end_at(input, method_start, "GET") {
        Some(end) => (String::from_str("GET"), end),
        None => match word_end_at(input, method_start, "POST") {
            Some(end) => (String::from_str("POST"), end),
            None => {
                return None;
            },
        },
    };
    let path_start = scan(input, method_end, Run::Spaces);
    let path_end = scan(input, path_start, Run::Path);
    let params_start = if path_end < input.len() && input[path_end] == 63 {
        path_end + 1
    } else {
        path_end
    };
    let mut pairs: Vec<(String, String)> = Vec::new();
    let ghost mut raw_pairs: Seq<(Seq<u8>, Seq<u8>)> = Seq::empty();
    let mut at: usize = params_start;
    loop
        invariant_except_break
            params_start <= at <= input@.len(),
            s == input@,
            continues(params_from(s, params_start as int), raw_pairs, params_from(s, at as int)),
            pairs@.len() == raw_pairs.len(),
            forall|i: int|
                0 <= i < pairs@.len() ==> (#[trigger] pairs@[i]).0@ == byte_chars(raw_pairs[i].0)
                    && pairs@[i].1@ == byte_chars(raw_pairs[i].1),
        ensures
            params_start <= at <= input@.len(),
            params_from(s, params_start as int) == (raw_pairs, at as int),
            pairs@.len() == raw_pairs.len(),
            forall|i: int|
                0 <= i < pairs@.len() ==> (#[trigger] pairs@[i]).0@ == byte_chars(raw_pairs[i].0)
                    && pairs@[i].1@ == byte_chars(raw_pairs[i].1),
        decreases input@.len() - at,
    {
        let name_end = match find_identifier_end(input, at) {
            Some(end) => end,
            None => {
                assert(raw_pairs + Seq::<(Seq<u8>, Seq<u8>)>::empty() =~= raw_pairs);
                break ;
            },
        };
        let value_start = if name_end < input.len() && input[name_end] == 61 {
            name_end + 1
        } else {
            name_end
        };
        let value_end = match find_identifier_end(input, value_start) {
            Some(end) => end,
            None => value_start,
        };
        let name = identifier_between(input, at, name_end);
        let value = identifier_between(input, value_start, value_end);
        proof {
            let raw_name = s.subrange(at as int, name_end as int);
            let raw_value = s.subrange(value_start as int, value_end as int);
            assert(raw_value =~= Seq::<u8>::empty() || identifier_end(s, value_start as int)
                is Some);
            assert(param_at(s, at as int) == Some((raw_name, raw_value, value_end as int)));
            let rest = params_from(s, value_end as int);
            assert(params_from(s, at as int) == (seq![(raw_name, raw_value)] + rest.0, rest.1));
            assert(raw_pairs + (seq![(raw_name, raw_value)] + rest.0) =~= raw_pairs.push(
                (raw_name, raw_value),
            ) + rest.0);
            raw_pairs = raw_pairs.push((raw_name, raw_value));
        }
        pairs.push((name, value));
        at = value_end;
    }
    let params_end = at;
    let version_start = scan(input, params_end, Run::Spaces);
    let version_end = match word_end_at(input, version_start, "HTTP/1.1") {
        Some(end) => end,
        None => {
            return None;
        },
    };
    let headers_start = scan(input, version_end, Run::Spaces);
    let mut headers: Vec<String> = Vec::new();
    let ghost mut raw_headers: Seq<Seq<u8>> = Seq::empty();
    let mut line: usize = headers_start;
    let mut all_text = true;
    loop
        invariant_except_break
            headers_start <= line <= n,
            n == input@.len(),
            s == input@,
            continues(headers_from(s, headers_start as int), raw_headers, headers_from(s, line as int)),
            all_text ==> headers@.len() == raw_headers.len(),
            all_text ==> forall|i: int|
                0 <= i < raw_headers.len() ==> valid_utf8(#[trigger] raw_headers[i]) && headers@[i]@
                    == decode_utf8(raw_headers[i]),
            !all_text ==> exists|i: int|
                0 <= i < raw_headers.len() && !valid_utf8(#[trigger] raw_headers[i]),
        ensures
            headers_start <= line <= input@.len(),
            headers_from(s, headers_start as int) == (raw_headers, line as int),
            all_text ==> headers@.len() == raw_headers.len(),
            all_text ==> forall|i: int|
                0 <= i < raw_headers.len() ==> valid_utf8(#[trigger] raw_headers[i]) && headers@[i]@
                    == decode_utf8(raw_headers[i]),
            !all_text ==> exists|i: int|
                0 <= i < raw_headers.len() && !valid_utf8(#[trigger] raw_headers[i]),
        decreases input@.len() - line,
    {
        let end = match find_line_end(input, line) {
            Some(end) => end,
            None => {
                assert(raw_headers + Seq::<Seq<u8>>::empty() =~= raw_headers);
                break ;
            },
        };
        let text = text_between(input, line, end);
        proof {
            let raw_line = s.subrange(line as int, end as int);
            let rest = headers_from(s, end + 2);
            assert(headers_from(s, line as int) == (seq![raw_line] + rest.0, rest.1));
            assert(raw_headers + (seq![raw_line] + rest.0) =~= raw_headers.push(raw_line) + rest.0);
            if !all_text {
                let i = choose|i: int| 0 <= i < raw_headers.len() && !valid_utf8(#[trigger] raw_headers[i]);
                assert(raw_headers.push(raw_line)[i] == raw_headers[i]);
            }
            raw_headers = raw_headers.push(raw_line);
        }
        match text {
            Some(header) => {
                if all_text {
                    headers.push(header);
                }
            },
            None => {
                assert(!valid_utf8(raw_headers[raw_headers.len() - 1]));
                all_text = false;
            },
        }
        line = end + 2;
    }
    let body_start = line;
    let path = text_between(input, path_start, path_end);
    let body = text_between(input, body_start, n);
    let ghost raw = RawRequest {
        method: method@,
        path: s.subrange(path_start as int, path_end as int),
        params: raw_pairs,
        headers: raw_headers,
        body: s.subrange(body_start as int, s.len() as int),
    };
    assert(grammar(s) == Some(raw));
    match (all_text, path, body) {
        (true, Some(path), Some(body)) => {
            proof {
                lemma_param_map_texts(pairs@, raw_pairs);
                assert(texts(headers@) =~= raw_headers.map_values(|h: Seq<u8>| decode_utf8(h)));
            }
            let req = HttpRequest::new(method, path, pairs, headers, body);
            assert(is_text(raw) && reads(req, raw));
            Some(req)
        },
        _ => None,
    }
}

/// The map made of name and value pairs holds, by name, the text of the
/// value that the raw pairs give.
pub proof fn lemma_param_map_texts(pairs: Seq<(String, String)>, raw: Seq<(Seq<u8>, Seq<u8>)>)
    requires
        pairs.len() == raw.len(),
        forall|i: int|
            0 <= i < pairs.len() ==> (#[trigger] pairs[i]).0@ == byte_chars(raw[i].0) && pairs[i].1@
                == byte_chars(raw[i].1),
    ensures
        value_texts(param_map(pairs)) == raw_param_map(raw),
    decreases pairs.len(),
{
    if pairs.len() == 0 {
        assert(value_texts(param_map(pairs)) =~= raw_param_map(raw));
    } else {
        assert forall|i: int| 0 <= i < pairs.drop_last().len() implies (#[trigger] pairs.drop_last()[i]).0@
            == byte_chars(raw.drop_last()[i].0) && pairs.drop_last()[i].1@ == byte_chars(
            raw.drop_last()[i].1,
        ) by {
            assert(pairs.drop_last()[i] == pairs[i]);
        }
        lemma_param_map_texts(pairs.drop_last(), raw.drop_last());
        assert(pairs.last() == pairs[pairs.len() - 1]);
        assert(value_texts(param_map(pairs)) =~= raw_param_map(raw));
    }
}

} // verus!

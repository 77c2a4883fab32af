//! What a readiness check by HTTP needs besides a connection: where a URL
//! points, the request to send there, and whether the answer is a success.

use vstd::prelude::*;
use vstd::std_specs::iter::IteratorSpec;
use vstd::string::StringExecFns;

verus! {

/// Where a URL of the scheme `http` points.
#[derive(Debug)]
pub struct HttpTarget {
    pub host: String,
    pub port: u16,
    pub path: String,
}

/// Where a URL points, as a plain value.
pub struct HttpTargetModel {
    pub host: Seq<char>,
    pub port: u16,
    pub path: Seq<char>,
}

impl View for HttpTarget {
    type V = HttpTargetModel;

    open spec fn view(&self) -> HttpTargetModel {
        HttpTargetModel { host: self.host@, port: self.port, path: self.path@ }
    }
}

/// The place of the first `c` in `text` at or after `from`; the length of
/// `text` where there is none.
pub open spec fn find_from(text: Seq<char>, c: char, from: int) -> int
    decreases text.len() - from,
{
    if from < 0 || from >= text.len() {
        text.len() as int
    } else if text[from] == c {
        from
    } else {
        find_from(text, c, from + 1)
    }
}

/// Whether `c` is a decimal digit.
pub open spec fn is_digit(c: char) -> bool {
    '0' <= c && c <= '9'
}

/// The number that the decimal digits `digits` write.
pub open spec fn decimal_value(digits: Seq<char>) -> nat
    decreases digits.len(),
{
    if digits.len() == 0 {
        0
    } else {
        decimal_value(digits.drop_last()) * 10 + ((digits.last() as u32 - '0' as u32) as nat)
    }
}

/// Whether `digits` writes a port: one to five decimal digits, with a value
/// of at most 65535.
pub open spec fn writes_port(digits: Seq<char>) -> bool {
    &&& 1 <= digits.len() <= 5
    &&& forall|i: int| 0 <= i < digits.len() ==> is_digit(#[trigger] digits[i])
    &&& decimal_value(digits) <= 65535
}

/// Where the URL `url` points, if it is one of the scheme `http`: after
/// `http://` a host that is not empty, then a colon and a port or nothing,
/// then a path that begins with a slash or nothing. Without a port the port
/// is 80, and without a path the path is `/`.
pub open spec fn parse_url(url: Seq<char>) -> Option<HttpTargetModel> {
    if url.len() < 7 || url.subrange(0, 7) != "http://"@ {
        None
    } else {
        let slash = find_from(url, '/', 7);
        let colon = find_from(url.subrange(0, slash), ':', 7);
        let host = url.subrange(7, colon);
        let path = if slash == url.len() {
            "/"@
        } else {
            url.subrange(slash, url.len() as int)
        };
        if host.len() == 0 {
            None
        } else if colon == slash {
            Some(HttpTargetModel { host, port: 80, path })
        } else {
            let digits = url.subrange(colon + 1, slash);
            if writes_port(digits) {
                Some(HttpTargetModel { host, port: decimal_value(digits) as u16, path })
            } else {
                None
            }
        }
    }
}

/// The characters of `text`, one by one.
fn characters(text: &str) -> (list: Vec<char>)
    ensures
        list@ == text@,
{
    broadcast use vstd::string::group_string_axioms;

    let mut list: Vec<char> = Vec::new();
    for c in it: text.chars()
        invariant
            it.seq() == text@,
            list@ == text@.subrange(0, it.index()),
    {
        list.push(c);
        assert(list@ =~= text@.subrange(0, it.index() + 1));
    }
    assert(list@ =~= text@);
    list
}

/// The place of the first `c` among the first `end` characters of `text`
/// at or after `from`; `end` where there is none.
fn find_char(text: &Vec<char>, c: char, from: usize, end: usize) -> (at: usize)
    requires
        from <= end <= text@.len(),
    ensures
        at == find_from(text@.subrange(0, end as int), c, from as int),
        from <= at <= end,
{
    let ghost part = text@.subrange(0, end as int);
    let mut at: usize = from;
    while at < end && text[at] != c
        invariant
            from <= at <= end,
            end <= text@.len(),
            part == text@.subrange(0, end as int),
            find_from(part, c, from as int) == find_from(part, c, at as int),
        decreases end - at,
    {
        assert(part[at as int] == text@[at as int]);
        at += 1;
    }
    proof {
        if at < end {
            assert(part[at as int] == text@[at as int]);
        }
    }
    at
}

proof fn lemma_decimal_bound(digits: Seq<char>)
    requires
        forall|i: int| 0 <= i < digits.len() ==> is_digit(#[trigger] digits[i]),
    ensures
        digits.len() == 0 ==> decimal_value(digits) == 0,
        digits.len() == 1 ==> decimal_value(digits) <= 9,
        digits.len() == 2 ==> decimal_value(digits) <= 99,
        digits.len() == 3 ==> decimal_value(digits) <= 999,
        digits.len() == 4 ==> decimal_value(digits) <= 9999,
        digits.len() == 5 ==> decimal_value(digits) <= 99999,
    decreases digits.len(),
{
    if digits.len() > 0 {
        let front = digits.drop_last();
        assert forall|i: int| 0 <= i < front.len() implies is_digit(#[trigger] front[i]) by {
            assert(front[i] == digits[i]);
        }
        lemma_decimal_bound(front);
        assert(is_digit(digits[digits.len() - 1]));
    }
}

/// The port that the characters of `text` from `from` up to `end` write, if
/// they write one.
fn read_port(text: &Vec<char>, from: usize, end: usize) -> (port: Option<u16>)
    requires
        from <= end <= text@.len(),
    ensures
        match port {
            Some(value) => writes_port(text@.subrange(from as int, end as int)) && value
                == decimal_value(text@.subrange(from as int, end as int)),
            None => !writes_port(text@.subrange(from as int, end as int)),
        },
{
    let ghost digits = text@.subrange(from as int, end as int);
    if end - from < 1 || end - from > 5 {
        return None;
    }
    let mut value: u32 = 0;
    let mut i: usize = from;
    while i < end
        invariant
            from <= i <= end <= text@.len(),
            end - from <= 5,
            digits == text@.subrange(from as int, end as int),
            forall|j: int| 0 <= j < i - from ==> is_digit(#[trigger] digits[j]),
            value == decimal_value(digits.subrange(0, i - from)),
            value <= 99999,
        decreases end - i,
    {
        let c = text[i];
        assert(digits[i - from] == c);
        if !('0' <= c && c <= '9') {
            return None;
        }
        proof {
            let seen = digits.subrange(0, i - from + 1);
            assert(seen.drop_last() =~= digits.subrange(0, i - from));
            assert(seen.last() == c);
            assert forall|j: int| 0 <= j < seen.len() implies is_digit(#[trigger] seen[j]) by {
                assert(seen[j] == digits[j]);
            }
            lemma_decimal_bound(seen);
            lemma_decimal_bound(seen.drop_last());
        }
        value = value * 10 + (c as u32 - '0' as u32);
        i += 1;
    }
    assert(digits.subrange(0, end - from) =~= digits);
    if value > 65535 {
        None
    } else {
        Some(value as u16)
    }
}

/// Where the URL `url` points, if it is one of the scheme `http`.
pub fn parse_http_url(url: &str) -> (target: Option<HttpTarget>)
    ensures
        match target {
            Some(found) => parse_url(url@) == Some(found@),
            None => parse_url(url@) is None,
        },
{
    let text = characters(url);
    let len = text.len();
    proof {
        reveal_strlit("http://");
    }
    if len < 7 || !(text[0] == 'h' && text[1] == 't' && text[2] == 't' && text[3] == 'p' && text[4]
        == ':' && text[5] == '/' && text[6] == '/') {
        proof {
            if len >= 7 {
                let head = url@.subrange(0, 7);
                assert(head[0] == url@[0] && head[1] == url@[1] && head[2] == url@[2] && head[3]
                    == url@[3] && head[4] == url@[4] && head[5] == url@[5] && head[6] == url@[6]);
            }
        }
        return None;
    }
    assert(url@.subrange(0, 7) =~= "http://"@);
    let slash = find_char(&text, '/', 7, len);
    let colon = find_char(&text, ':', 7, slash);
    proof {
        assert(url@.subrange(0, len as int) =~= url@);
    }
    if colon == 7 {
        return None;
    }
    let port = if colon == slash {
        80
    } else {
        match read_port(&text, colon + 1, slash) {
            Some(value) => value,
            None => {
                return None;
            },
        }
    };
    let host = url.substring_char(7, colon).to_owned();
    let path = if slash == len {
        "/".to_owned()
    } else {
        url.substring_char(slash, len).to_owned()
    };
    Some(HttpTarget { host, port, path })
}

/// The request that asks `target` for its path: a GET of HTTP/1.1 that
/// names the host and asks for the connection to be closed.
pub open spec fn request_text(target: HttpTargetModel) -> Seq<char> {
    "GET "@ + target.path + " HTTP/1.1\r\nHost: "@ + target.host
        + "\r\nConnection: close\r\n\r\n"@
}

impl HttpTarget {
    /// The request to send to the target.
    pub fn request(&self) -> (text: String)
        ensures
            text@ == request_text(self@),
    {
        "GET ".to_owned().concat(self.path.as_str()).concat(" HTTP/1.1\r\nHost: ").concat(
            self.host.as_str(),
        ).concat("\r\nConnection: close\r\n\r\n")
    }
}

/// Whether the byte `b` is a decimal digit of ASCII.
pub open spec fn digit_byte(b: u8) -> bool {
    48 <= b <= 57
}

/// Whether an answer that begins with the bytes `head` reports a success:
/// it begins with `HTTP/`, a digit, a dot, a digit and a space, and then a
/// status of three digits of which the first is 2.
pub open spec fn success_head(head: Seq<u8>) -> bool {
    &&& head.len() >= 12
    &&& head[0] == 72 && head[1] == 84 && head[2] == 84 && head[3] == 80 && head[4] == 47
    &&& digit_byte(head[5]) && head[6] == 46 && digit_byte(head[7]) && head[8] == 32
    &&& head[9] == 50 && digit_byte(head[10]) && digit_byte(head[11])
}

/// Whether an answer that begins with the bytes `head` reports a success.
pub fn is_success_response(head: &[u8]) -> (ok: bool)
    ensures
        ok == success_head(head@),
{
    head.len() >= 12 && head[0] == 72 && head[1] == 84 && head[2] == 84 && head[3] == 80
        && head[4] == 47 && 48 <= head[5] && head[5] <= 57 && head[6] == 46 && 48 <= head[7]
        && head[7] <= 57 && head[8] == 32 && head[9] == 50 && 48 <= head[10] && head[10] <= 57
        && 48 <= head[11] && head[11] <= 57
}

} // verus!

//! Requests and responses: the headers that are sent, and what the headers of a
//! response say.

use vstd::prelude::*;
use vstd::string::*;
use super::http_errors::{error_line, status_error, HttpErrorInfo};
use crate::text::{
    chars_of, clone_opt, decimal, decimal_u64, eq_ignore_case, find_char, find_chars, find_from,
    law_found_where_it_first_stands, law_parse_of_decimal, leading, lemma_found_at, lemma_leading,
    lemma_trailing, lower_ascii, lower_ascii_text, opt_text, other_than, parse_up_to, parsed,
    same_ignoring_case, space, spaces, string_of, text_eq, trailing,
};
use crate::text_map::{text_values, TextMap};

verus! {

// ---------------------------------------------------------------------------
// Response headers
// ---------------------------------------------------------------------------

/// One header of a response. The value is there where it is visible ASCII.
pub struct ResponseHeader {
    pub name: String,
    pub value: Option<String>,
}

/// One header as texts.
pub struct HeaderView {
    pub name: Seq<char>,
    pub value: Option<Seq<char>>,
}

impl View for ResponseHeader {
    type V = HeaderView;

    open spec fn view(&self) -> HeaderView {
        HeaderView { name: self.name@, value: opt_text(self.value) }
    }
}

/// Headers as texts.
pub open spec fn header_views(hs: Seq<ResponseHeader>) -> Seq<HeaderView> {
    hs.map_values(|h: ResponseHeader| h@)
}

/// The value of the first header with the given name, in whatever letter case.
pub open spec fn header_value(hs: Seq<HeaderView>, name: Seq<char>) -> Option<Seq<char>>
    decreases hs.len(),
{
    if hs.len() == 0 {
        None
    } else if same_ignoring_case(hs[0].name, name) {
        hs[0].value
    } else {
        header_value(hs.drop_first(), name)
    }
}

/// The value of the first header with the given name, in whatever letter case.
pub fn find_header(hs: &Vec<ResponseHeader>, name: &str) -> (r: Option<String>)
    ensures
        opt_text(r) == header_value(header_views(hs@), name@),
{
    let ghost vs = header_views(hs@);
    assert(vs.skip(0) =~= vs);
    for i in 0..hs.len()
        invariant
            vs == header_views(hs@),
            header_value(vs, name@) == header_value(vs.skip(i as int), name@),
    {
        assert(vs.skip(i as int)[0] == hs@[i as int]@);
        assert(vs.skip(i as int).drop_first() =~= vs.skip(i + 1));
        if eq_ignore_case(hs[i].name.as_str(), name) {
            return clone_opt(&hs[i].value);
        }
    }
    None
}

/// `s` without quotation marks at its ends.
pub open spec fn unquoted(s: Seq<char>) -> Seq<char> {
    let a = s.skip(leading(s, quotes()) as int);
    a.take(a.len() - trailing(a, quotes()))
}

/// The quotation mark.
pub open spec fn quotes() -> spec_fn(char) -> bool {
    |c: char| c == '"'
}

/// The file name in a Content-Disposition header: what follows `filename=`, up
/// to another `filename=`, without quotation marks around it.
pub open spec fn disposition_filename(v: Seq<char>) -> Option<Seq<char>> {
    match find_from(v, "filename="@, 0) {
        None => None,
        Some(i) => {
            let rest = v.skip(i + "filename="@.len());
            Some(
                unquoted(
                    match find_from(rest, "filename="@, 0) {
                        Some(j) => rest.take(j),
                        None => rest,
                    },
                ),
            )
        },
    }
}

/// Whether a header is worth keeping.
pub open spec fn is_useful(name: Seq<char>) -> bool {
    ||| name == "accept-ranges"@
    ||| name == "content-range"@
    ||| name == "etag"@
    ||| name == "last-modified"@
    ||| name == "cache-control"@
    ||| name == "expires"@
    ||| name == "content-type"@
    ||| name == "content-length"@
    ||| name == "content-disposition"@
    ||| name == "content-encoding"@
    ||| name == "server"@
    ||| name == "x-request-id"@
    ||| name == "x-served-by"@
    ||| name == "retry-after"@
    ||| name == "x-ratelimit-remaining"@
    ||| name == "x-ratelimit-reset"@
}

/// The headers that are worth keeping, by name in lower case. Of several with
/// one name the last counts.
pub open spec fn useful_headers(hs: Seq<HeaderView>) -> Map<Seq<char>, Seq<char>>
    decreases hs.len(),
{
    if hs.len() == 0 {
        Map::empty()
    } else {
        let before = useful_headers(hs.drop_last());
        let name = lower_ascii(hs.last().name);
        match hs.last().value {
            Some(value) => if is_useful(name) {
                before.insert(name, value)
            } else {
                before
            },
            None => before,
        }
    }
}

/// Only headers that are worth keeping are kept.
pub proof fn law_only_useful_headers(hs: Seq<HeaderView>, name: Seq<char>)
    ensures
        useful_headers(hs).contains_key(name) ==> is_useful(name),
    decreases hs.len(),
{
    if hs.len() > 0 {
        law_only_useful_headers(hs.drop_last(), name);
    }
}

/// What the headers of a response say.
pub struct ParsedHeaders {
    pub size: Option<u64>,
    pub resume_supported: bool,
    pub etag: Option<String>,
    pub last_modified: Option<String>,
    pub filename: Option<String>,
    pub content_type: Option<String>,
    pub all_headers: TextMap<String>,
}

/// What the headers of a response say, as values.
#[verifier::ext_equal]
pub struct ParsedView {
    pub size: Option<u64>,
    pub resume_supported: bool,
    pub etag: Option<Seq<char>>,
    pub last_modified: Option<Seq<char>>,
    pub filename: Option<Seq<char>>,
    pub content_type: Option<Seq<char>>,
    pub all_headers: Map<Seq<char>, Seq<char>>,
}

impl View for ParsedHeaders {
    type V = ParsedView;

    open spec fn view(&self) -> ParsedView {
        ParsedView {
            size: self.size,
            resume_supported: self.resume_supported,
            etag: opt_text(self.etag),
            last_modified: opt_text(self.last_modified),
            filename: opt_text(self.filename),
            content_type: opt_text(self.content_type),
            all_headers: text_values(self.all_headers@),
        }
    }
}

/// The number that an optional text denotes.
pub open spec fn opt_number(o: Option<Seq<char>>) -> Option<u64> {
    match o {
        Some(s) => match parsed(s, u64::MAX as nat) {
            Some(n) => Some(n as u64),
            None => None,
        },
        None => None,
    }
}

/// What the headers of a response say.
pub open spec fn parsed_headers(hs: Seq<HeaderView>) -> ParsedView {
    ParsedView {
        size: opt_number(header_value(hs, "content-length"@)),
        resume_supported: header_value(hs, "accept-ranges"@) == Some("bytes"@),
        etag: header_value(hs, "etag"@),
        last_modified: header_value(hs, "last-modified"@),
        filename: match header_value(hs, "content-disposition"@) {
            Some(v) => disposition_filename(v),
            None => None,
        },
        content_type: header_value(hs, "content-type"@),
        all_headers: useful_headers(hs),
    }
}

/// The first header with a name, in whatever letter case, is the one that counts;
/// where none has the name, there is no value.
pub proof fn law_first_header_counts(hs: Seq<HeaderView>, name: Seq<char>, k: int)
    requires
        0 <= k <= hs.len(),
        forall|j: int| 0 <= j < k ==> lower_ascii((#[trigger] hs[j]).name) != lower_ascii(name),
        k < hs.len() ==> lower_ascii(hs[k].name) == lower_ascii(name),
    ensures
        header_value(hs, name) == (if k < hs.len() {
            hs[k].value
        } else {
            None
        }),
    decreases k,
{
    if k > 0 {
        assert(lower_ascii(hs[0].name) != lower_ascii(name));
        let rest = hs.drop_first();
        assert forall|j: int| 0 <= j < k - 1 implies lower_ascii((#[trigger] rest[j]).name)
            != lower_ascii(name) by {
            assert(rest[j] == hs[j + 1]);
        }
        law_first_header_counts(rest, name, k - 1);
    }
}

/// What a response says is read from the headers that say it, each the first with
/// its name: the length if it is a number, and that a transfer can be resumed
/// exactly if ranges of bytes are accepted.
pub proof fn law_headers_are_believed(
    hs: Seq<HeaderView>,
    status: u16,
    final_url: Option<Seq<char>>,
    name: Seq<char>,
    k: int,
)
    requires
        0 <= k < hs.len(),
        forall|j: int| 0 <= j < k ==> lower_ascii((#[trigger] hs[j]).name) != lower_ascii(name),
        lower_ascii(hs[k].name) == lower_ascii(name),
    ensures
        ({
            let p = info_of(status, hs, final_url);
            &&& name == "content-length"@ ==> p.size == opt_number(hs[k].value)
            &&& name == "accept-ranges"@ ==> (p.resume_supported <==> hs[k].value == Some("bytes"@))
            &&& name == "etag"@ ==> p.etag == hs[k].value
            &&& name == "last-modified"@ ==> p.last_modified == hs[k].value
            &&& name == "content-type"@ ==> p.content_type == hs[k].value
            &&& name == "content-disposition"@ && hs[k].value is Some ==> p.filename
                == disposition_filename(hs[k].value->0)
            &&& name == "content-disposition"@ && hs[k].value is None ==> p.filename is None
            &&& name == "www-authenticate"@ && status == 401 && hs[k].value is Some
                ==> p.auth_realm == realm_in(hs[k].value->0)
            &&& name == "proxy-authenticate"@ && status == 407 && hs[k].value is Some
                ==> p.auth_realm == realm_in(hs[k].value->0)
            &&& p.status == status
            &&& p.final_url == final_url
            &&& p.auth_required <==> status == 401 || status == 407
            &&& !(status == 401 || status == 407) ==> p.auth_realm is None
        }),
{
    law_first_header_counts(hs, name, k);
}

/// What no header says, a response does not say.
pub proof fn law_missing_headers_say_nothing(
    hs: Seq<HeaderView>,
    status: u16,
    final_url: Option<Seq<char>>,
    name: Seq<char>,
)
    requires
        forall|j: int|
            0 <= j < hs.len() ==> lower_ascii((#[trigger] hs[j]).name) != lower_ascii(name),
    ensures
        ({
            let p = info_of(status, hs, final_url);
            &&& name == "content-length"@ ==> p.size is None
            &&& name == "accept-ranges"@ ==> !p.resume_supported
            &&& name == "etag"@ ==> p.etag is None
            &&& name == "last-modified"@ ==> p.last_modified is None
            &&& name == "content-type"@ ==> p.content_type is None
            &&& name == "content-disposition"@ ==> p.filename is None
            &&& name == "www-authenticate"@ && status == 401 ==> p.auth_realm is None
            &&& name == "proxy-authenticate"@ && status == 407 ==> p.auth_realm is None
        }),
{
    law_first_header_counts(hs, name, hs.len() as int);
}

/// A length is a number as it is written.
pub proof fn law_lengths_are_numbers(n: u64)
    ensures
        opt_number(Some(decimal(n as nat))) == Some(n),
        opt_number(None) is None,
{
    law_parse_of_decimal(n as nat, u64::MAX as nat);
}

/// A name for the file is what follows `filename=`, with or without quotation
/// marks around it; without `filename=` there is none.
pub proof fn law_disposition_names_the_file(before: Seq<char>, name: Seq<char>)
    requires
        forall|j: int|
            0 <= j < before.len() ==> #[trigger] (before + "filename="@).subrange(j, j + 9)
                != "filename="@,
        forall|j: int|
            0 <= j && j + 9 <= name.len() ==> #[trigger] name.subrange(j, j + 9) != "filename="@,
        name.len() > 0 ==> name[0] != '"' && name.last() != '"',
    ensures
        disposition_filename(before + "filename="@ + name) == Some(name),
        disposition_filename(name) is None,
{
    reveal_strlit("filename=");
    let p = "filename="@;
    let v = before + p + name;
    assert forall|j: int| 0 <= j < before.len() implies #[trigger] v.subrange(j, j + p.len())
        != p by {
        if j + 9 <= before.len() + 9 {
            assert(v.subrange(j, j + 9) =~= (before + p).subrange(j, j + 9));
        }
    }
    assert(v.subrange(before.len() as int, (before.len() + p.len()) as int) =~= p);
    lemma_found_at(v, p, 0, before.len() as int);
    let rest = v.skip((before.len() + p.len()) as int);
    assert(rest =~= name);
    law_found_where_it_first_stands(name, p, 0);
    if let Some(i) = find_from(name, p, 0) {
        assert(name.subrange(i, i + 9) == p);
    }
    lemma_leading(name, quotes(), 0);
    let a = name.skip(0);
    assert(a =~= name);
    lemma_trailing(name, quotes(), 0);
    assert(name.take(name.len() as int) =~= name);
}

/// Quotation marks around a name do not belong to it.
pub proof fn law_quotes_are_dropped(name: Seq<char>)
    requires
        name.len() > 0,
        name[0] != '"',
        name.last() != '"',
    ensures
        unquoted(name) == name,
        unquoted("\""@ + name + "\""@) == name,
{
    reveal_strlit("\"");
    lemma_leading(name, quotes(), 0);
    assert(name.skip(0) =~= name);
    lemma_trailing(name, quotes(), 0);
    assert(name.take(name.len() as int) =~= name);
    let q = "\""@ + name + "\""@;
    assert(q[1] == name[0]);
    lemma_leading(q, quotes(), 1);
    let a = q.skip(1);
    assert(a =~= name + "\""@);
    assert(a[a.len() - 2] == name.last());
    lemma_trailing(a, quotes(), 1);
    assert(a.take(a.len() - 1) =~= name);
}

/// A header is kept, under its name in lower case, exactly if its name is one of
/// these and its value is text; of several with one name the last counts.
pub proof fn law_kept_headers(hs: Seq<HeaderView>, name: Seq<char>, k: int)
    requires
        0 <= k < hs.len(),
        lower_ascii(hs[k].name) == name,
        hs[k].value is Some,
        forall|j: int|
            k < j < hs.len() ==> lower_ascii((#[trigger] hs[j]).name) != name || hs[j].value is None,
    ensures
        useful_headers(hs).contains_key(name) <==> (name == "accept-ranges"@ || name
            == "content-range"@ || name == "etag"@ || name == "last-modified"@ || name
            == "cache-control"@ || name == "expires"@ || name == "content-type"@ || name
            == "content-length"@ || name == "content-disposition"@ || name == "content-encoding"@
            || name == "server"@ || name == "x-request-id"@ || name == "x-served-by"@ || name
            == "retry-after"@ || name == "x-ratelimit-remaining"@ || name == "x-ratelimit-reset"@),
        useful_headers(hs).contains_key(name) ==> useful_headers(hs)[name] == hs[k].value->0,
    decreases hs.len(),
{
    let before = hs.drop_last();
    if k < hs.len() - 1 {
        assert(before[k] == hs[k]);
        assert forall|j: int| k < j < before.len() implies lower_ascii((#[trigger] before[j]).name)
            != name || before[j].value is None by {
            assert(before[j] == hs[j]);
        }
        law_kept_headers(before, name, k);
        assert(lower_ascii(hs[hs.len() - 1].name) != name || hs[hs.len() - 1].value is None);
    } else {
        law_only_useful_headers(before, name);
    }
}

/// What is kept was sent.
pub proof fn law_kept_headers_were_sent(hs: Seq<HeaderView>, name: Seq<char>)
    requires
        useful_headers(hs).contains_key(name),
    ensures
        exists|k: int|
            0 <= k < hs.len() && lower_ascii((#[trigger] hs[k]).name) == name && hs[k].value
                == Some(useful_headers(hs)[name]),
    decreases hs.len(),
{
    let before = hs.drop_last();
    let last = hs.len() - 1;
    assert(hs[last] == hs.last());
    if lower_ascii(hs.last().name) == name && hs.last().value is Some && is_useful(name) {
        assert(hs[last].value == Some(useful_headers(hs)[name]));
    } else {
        law_kept_headers_were_sent(before, name);
        let k = choose|k: int|
            0 <= k < before.len() && lower_ascii((#[trigger] before[k]).name) == name
                && before[k].value == Some(useful_headers(before)[name]);
        assert(hs[k] == before[k]);
    }
}

fn without_quotes(s: &str) -> (r: String)
    ensures
        r@ == unquoted(s@),
{
    let v = chars_of(s);
    let mut i: usize = 0;
    while i < v.len() && v[i] == '"'
        invariant
            i <= v@.len(),
            forall|k: int| 0 <= k < i ==> v@[k] == '"',
        decreases v@.len() - i,
    {
        i = i + 1;
    }
    let mut j: usize = v.len();
    while j > i && v[j - 1] == '"'
        invariant
            i <= j <= v@.len(),
            forall|k: int| j <= k < v@.len() ==> v@[k] == '"',
        decreases j,
    {
        j = j - 1;
    }
    proof {
        lemma_leading(s@, quotes(), i as int);
        let a = s@.skip(i as int);
        assert forall|k: int| a.len() - (s@.len() - j) <= k < a.len() implies quotes()(
            #[trigger] a[k],
        ) by {
            assert(a[k] == v@[k + i]);
        }
        if j > i {
            assert(a[a.len() - (s@.len() - j) - 1] == v@[j - 1]);
        }
        lemma_trailing(a, quotes(), s@.len() - j);
        assert(a.take(j - i) =~= s@.subrange(i as int, j as int));
    }
    string_of(&v, i, j)
}

/// The file name in a Content-Disposition header.
pub fn parse_disposition(value: &str) -> (r: Option<String>)
    ensures
        opt_text(r) == disposition_filename(value@),
{
    let v = chars_of(value);
    let p = chars_of("filename=");
    match find_chars(&v, &p, 0) {
        None => None,
        Some(i) => {
            let total: usize = v.len();
            let from: usize = i + p.len();
            let rest = string_of(&v, from, total);
            let w = chars_of(rest.as_str());
            proof {
                assert(rest@ =~= value@.skip(i + "filename="@.len()));
            }
            let end: usize = match find_chars(&w, &p, 0) {
                Some(j) => j,
                None => w.len(),
            };
            let part = string_of(&w, 0, end);
            proof {
                assert(rest@.take(rest@.len() as int) =~= rest@);
                assert(part@ =~= rest@.take(end as int));
            }
            Some(without_quotes(part.as_str()))
        },
    }
}

fn useful(name: &str) -> (r: bool)
    ensures
        r == is_useful(name@),
{
    text_eq(name, "accept-ranges") || text_eq(name, "content-range") || text_eq(name, "etag")
        || text_eq(name, "last-modified") || text_eq(name, "cache-control") || text_eq(
        name,
        "expires",
    ) || text_eq(name, "content-type") || text_eq(name, "content-length") || text_eq(
        name,
        "content-disposition",
    ) || text_eq(name, "content-encoding") || text_eq(name, "server") || text_eq(
        name,
        "x-request-id",
    ) || text_eq(name, "x-served-by") || text_eq(name, "retry-after") || text_eq(
        name,
        "x-ratelimit-remaining",
    ) || text_eq(name, "x-ratelimit-reset")
}

fn keep_useful(hs: &Vec<ResponseHeader>) -> (r: TextMap<String>)
    ensures
        text_values(r@) == useful_headers(header_views(hs@)),
{
    let ghost vs = header_views(hs@);
    let mut out: TextMap<String> = TextMap::new();
    assert(text_values(out@) =~= Map::<Seq<char>, Seq<char>>::empty());
    for i in 0..hs.len()
        invariant
            vs == header_views(hs@),
            text_values(out@) == useful_headers(vs.take(i as int)),
    {
        proof {
            assert(vs.take(i + 1).drop_last() =~= vs.take(i as int));
            assert(vs.take(i + 1).last() == hs@[i as int]@);
        }
        let name = lower_ascii_text(hs[i].name.as_str());
        if useful(name.as_str()) {
            if let Some(value) = &hs[i].value {
                let ghost before = out@;
                let ghost n = name@;
                out.insert(name, value.clone());
                assert(text_values(out@) =~= text_values(before).insert(n, value@));
            }
        }
    }
    assert(vs.take(vs.len() as int) =~= vs);
    out
}

/// Reads the headers of a response.
pub fn parse_response_headers(headers: &Vec<ResponseHeader>) -> (r: ParsedHeaders)
    ensures
        r@ == parsed_headers(header_views(headers@)),
{
    let size: Option<u64> = match find_header(headers, "content-length") {
        Some(v) => parse_up_to(v.as_str(), u64::MAX),
        None => None,
    };
    let resume_supported: bool = match find_header(headers, "accept-ranges") {
        Some(v) => text_eq(v.as_str(), "bytes"),
        None => false,
    };
    let etag = find_header(headers, "etag");
    let last_modified = find_header(headers, "last-modified");
    let filename = match find_header(headers, "content-disposition") {
        Some(v) => parse_disposition(v.as_str()),
        None => None,
    };
    let content_type = find_header(headers, "content-type");
    let all_headers = keep_useful(headers);
    ParsedHeaders {
        size,
        resume_supported,
        etag,
        last_modified,
        filename,
        content_type,
        all_headers,
    }
}

// ---------------------------------------------------------------------------
// Authentication
// ---------------------------------------------------------------------------

/// The characters that are not white space.
pub open spec fn not_spaces() -> spec_fn(char) -> bool {
    |c: char| !crate::text::is_space(c)
}

/// The realm that an authentication header names: what follows `realm=`, either
/// between quotation marks or up to the next white space.
pub open spec fn realm_in(v: Seq<char>) -> Option<Seq<char>> {
    match find_from(v, "realm="@, 0) {
        None => None,
        Some(i) => {
            let part = v.skip(i + "realm="@.len());
            if part.len() > 0 && part[0] == '"' {
                let inner = part.skip(1);
                Some(inner.take(leading(inner, other_than('"')) as int))
            } else {
                let word = part.skip(leading(part, spaces()) as int);
                if word.len() == 0 {
                    None
                } else {
                    Some(word.take(leading(word, not_spaces()) as int))
                }
            }
        },
    }
}

/// Whether a response asks for credentials.
pub open spec fn asks_credentials(status: u16) -> bool {
    status == 401 || status == 407
}

/// The realm that a response asks credentials for.
pub open spec fn asked_realm(status: u16, hs: Seq<HeaderView>) -> Option<Seq<char>> {
    let name = if status == 401 {
        "www-authenticate"@
    } else {
        "proxy-authenticate"@
    };
    if asks_credentials(status) {
        match header_value(hs, name) {
            Some(v) => realm_in(v),
            None => None,
        }
    } else {
        None
    }
}

/// A realm is what stands between quotation marks after `realm=`, or the word that
/// follows it without any; without `realm=` there is none.
pub proof fn law_realm_is_named(before: Seq<char>, realm: Seq<char>, after: Seq<char>)
    requires
        forall|j: int|
            0 <= j < before.len() ==> #[trigger] (before + "realm="@).subrange(j, j + 6)
                != "realm="@,
    ensures
        !realm.contains('"') ==> realm_in(before + "realm="@ + ("\""@ + realm + "\""@ + after))
            == Some(realm),
        realm.len() > 0 && (forall|i: int|
            0 <= i < realm.len() ==> !crate::text::is_space(#[trigger] realm[i])) && realm[0] != '"'
            && (after.len() > 0 ==> crate::text::is_space(after[0])) ==> realm_in(
            before + "realm="@ + (realm + after),
        ) == Some(realm),
{
    reveal_strlit("realm=");
    reveal_strlit("\"");
    let p = "realm="@;
    let quoted = "\""@ + realm + "\""@ + after;
    lemma_realm_part(before, quoted);
    lemma_realm_part(before, realm + after);
    if !realm.contains('"') {
        let inner = quoted.skip(1);
        assert(inner =~= realm + "\""@ + after);
        assert forall|k: int| 0 <= k < realm.len() implies other_than('"')(#[trigger] inner[k]) by {
            assert(inner[k] == realm[k]);
        }
        assert(inner[realm.len() as int] == '"');
        lemma_leading(inner, other_than('"'), realm.len() as int);
        assert(inner.take(realm.len() as int) =~= realm);
    }
    if realm.len() > 0 && (forall|i: int|
        0 <= i < realm.len() ==> !crate::text::is_space(#[trigger] realm[i])) && realm[0] != '"' && (
    after.len() > 0 ==> crate::text::is_space(after[0])) {
        let part = realm + after;
        assert(part[0] == realm[0]);
        lemma_leading(part, spaces(), 0);
        let word = part.skip(0);
        assert(word =~= part);
        assert forall|k: int| 0 <= k < realm.len() implies not_spaces()(#[trigger] part[k]) by {
            assert(part[k] == realm[k]);
        }
        if after.len() > 0 {
            assert(part[realm.len() as int] == after[0]);
        }
        lemma_leading(part, not_spaces(), realm.len() as int);
        assert(part.take(realm.len() as int) =~= realm);
    }
}

/// What follows `realm=`.
proof fn lemma_realm_part(before: Seq<char>, part: Seq<char>)
    requires
        forall|j: int|
            0 <= j < before.len() ==> #[trigger] (before + "realm="@).subrange(j, j + 6)
                != "realm="@,
    ensures
        find_from(before + "realm="@ + part, "realm="@, 0) == Some(before.len() as int),
        (before + "realm="@ + part).skip((before.len() + "realm="@.len()) as int) == part,
{
    reveal_strlit("realm=");
    let p = "realm="@;
    let v = before + p + part;
    assert forall|j: int| 0 <= j < before.len() implies #[trigger] v.subrange(j, j + p.len())
        != p by {
        assert(v.subrange(j, j + 6) =~= (before + p).subrange(j, j + 6));
    }
    assert(v.subrange(before.len() as int, (before.len() + p.len()) as int) =~= p);
    lemma_found_at(v, p, 0, before.len() as int);
    assert(v.skip((before.len() + p.len()) as int) =~= part);
}

/// A header that does not say `realm=` names no realm.
pub proof fn law_no_realm_without_the_word(v: Seq<char>)
    requires
        forall|j: int| 0 <= j && j + 6 <= v.len() ==> #[trigger] v.subrange(j, j + 6) != "realm="@,
    ensures
        realm_in(v) is None,
{
    reveal_strlit("realm=");
    law_found_where_it_first_stands(v, "realm="@, 0);
    if let Some(i) = find_from(v, "realm="@, 0) {
        assert(v.subrange(i, i + 6) == "realm="@);
    }
}

/// The realm that an authentication header names.
pub fn parse_realm(value: &str) -> (r: Option<String>)
    ensures
        opt_text(r) == realm_in(value@),
{
    let v = chars_of(value);
    let p = chars_of("realm=");
    match find_chars(&v, &p, 0) {
        None => None,
        Some(i) => {
            let total: usize = v.len();
            let from: usize = i + p.len();
            let ghost part = value@.skip(i + "realm="@.len());
            assert(part =~= v@.skip(from as int));
            if from < total && v[from] == '"' {
                let end: usize = find_char(&v, '"', from + 1);
                proof {
                    let inner = part.skip(1);
                    assert forall|k: int| 0 <= k < end - from - 1 implies other_than('"')(
                        #[trigger] inner[k],
                    ) by {
                        assert(inner[k] == v@[from + 1 + k]);
                    }
                    if end < v@.len() {
                        assert(inner[end - from - 1] == v@[end as int]);
                    }
                    lemma_leading(inner, other_than('"'), end - from - 1);
                    assert(inner.take(end - from - 1) =~= v@.subrange(from + 1, end as int));
                }
                Some(string_of(&v, from + 1, end))
            } else {
                let mut a: usize = from;
                while a < v.len() && space(v[a])
                    invariant
                        from <= a <= v@.len(),
                        forall|k: int| from <= k < a ==> crate::text::is_space(v@[k]),
                    decreases v@.len() - a,
                {
                    a = a + 1;
                }
                proof {
                    assert forall|k: int| 0 <= k < a - from implies spaces()(
                        #[trigger] part[k],
                    ) by {
                        assert(part[k] == v@[from + k]);
                    }
                    if a < v@.len() {
                        assert(part[a - from] == v@[a as int]);
                    }
                    lemma_leading(part, spaces(), a - from);
                }
                let ghost word = part.skip(a - from);
                if a == v.len() {
                    return None;
                }
                let mut b: usize = a;
                while b < v.len() && !space(v[b])
                    invariant
                        a <= b <= v@.len(),
                        forall|k: int| a <= k < b ==> !crate::text::is_space(v@[k]),
                    decreases v@.len() - b,
                {
                    b = b + 1;
                }
                proof {
                    assert forall|k: int| 0 <= k < b - a implies not_spaces()(
                        #[trigger] word[k],
                    ) by {
                        assert(word[k] == v@[a + k]);
                    }
                    if b < v@.len() {
                        assert(word[b - a] == v@[b as int]);
                    }
                    lemma_leading(word, not_spaces(), b - a);
                    assert(word.take(b - a) =~= v@.subrange(a as int, b as int));
                }
                Some(string_of(&v, a, b))
            }
        },
    }
}

/// Whether a response asks for credentials, and for which realm.
pub fn check_auth_required(status: u16, headers: &Vec<ResponseHeader>) -> (r: (
    bool,
    Option<String>,
))
    ensures
        r.0 == asks_credentials(status),
        opt_text(r.1) == asked_realm(status, header_views(headers@)),
{
    if status != 401 && status != 407 {
        return (false, None);
    }
    let value = if status == 401 {
        find_header(headers, "www-authenticate")
    } else {
        find_header(headers, "proxy-authenticate")
    };
    let realm = match value {
        Some(v) => parse_realm(v.as_str()),
        None => None,
    };
    (true, realm)
}

/// What a response says of a download.
pub struct DownloadInfo {
    pub size: Option<u64>,
    pub resume_supported: bool,
    pub etag: Option<String>,
    pub last_modified: Option<String>,
    pub filename: Option<String>,
    pub status: u16,
    pub headers: TextMap<String>,
    pub content_type: Option<String>,
    pub auth_required: bool,
    pub auth_realm: Option<String>,
    /// The URL that redirects led to.
    pub final_url: Option<String>,
}

/// What a response says of a download, as values.
#[verifier::ext_equal]
pub struct InfoView {
    pub size: Option<u64>,
    pub resume_supported: bool,
    pub etag: Option<Seq<char>>,
    pub last_modified: Option<Seq<char>>,
    pub filename: Option<Seq<char>>,
    pub status: u16,
    pub headers: Map<Seq<char>, Seq<char>>,
    pub content_type: Option<Seq<char>>,
    pub auth_required: bool,
    pub auth_realm: Option<Seq<char>>,
    pub final_url: Option<Seq<char>>,
}

impl View for DownloadInfo {
    type V = InfoView;

    open spec fn view(&self) -> InfoView {
        InfoView {
            size: self.size,
            resume_supported: self.resume_supported,
            etag: opt_text(self.etag),
            last_modified: opt_text(self.last_modified),
            filename: opt_text(self.filename),
            status: self.status,
            headers: text_values(self.headers@),
            content_type: opt_text(self.content_type),
            auth_required: self.auth_required,
            auth_realm: opt_text(self.auth_realm),
            final_url: opt_text(self.final_url),
        }
    }
}

/// What a response says of a download.
pub open spec fn info_of(
    status: u16,
    hs: Seq<HeaderView>,
    final_url: Option<Seq<char>>,
) -> InfoView {
    let p = parsed_headers(hs);
    InfoView {
        size: p.size,
        resume_supported: p.resume_supported,
        etag: p.etag,
        last_modified: p.last_modified,
        filename: p.filename,
        status,
        headers: p.all_headers,
        content_type: p.content_type,
        auth_required: asks_credentials(status),
        auth_realm: asked_realm(status, hs),
        final_url,
    }
}

impl DownloadInfo {
    /// Reads what a response says of a download, given its status, its headers
    /// and the URL that redirects led to.
    pub fn from_response(
        status: u16,
        headers: &Vec<ResponseHeader>,
        final_url: Option<String>,
    ) -> (r: DownloadInfo)
        ensures
            r@ == info_of(status, header_views(headers@), opt_text(final_url)),
    {
        let p = parse_response_headers(headers);
        let (auth_required, auth_realm) = check_auth_required(status, headers);
        DownloadInfo {
            size: p.size,
            resume_supported: p.resume_supported,
            etag: p.etag,
            last_modified: p.last_modified,
            filename: p.filename,
            status,
            headers: p.all_headers,
            content_type: p.content_type,
            auth_required,
            auth_realm,
            final_url,
        }
    }
}

// ---------------------------------------------------------------------------
// Request headers
// ---------------------------------------------------------------------------

/// Why a header cannot be sent.
#[derive(Debug, Clone, Copy, PartialEq, Eq, Structural)]
pub enum HeaderError {
    InvalidName,
    InvalidValue,
}

/// Why a header cannot be sent, in words.
pub open spec fn header_error_text(e: HeaderError) -> Seq<char> {
    match e {
        HeaderError::InvalidName => "invalid HTTP header name"@,
        HeaderError::InvalidValue => "failed to parse header value"@,
    }
}

/// Why a header cannot be sent is said in words.
pub proof fn law_header_errors_in_words(e: HeaderError)
    ensures
        e == HeaderError::InvalidName ==> header_error_text(e) == "invalid HTTP header name"@,
        e == HeaderError::InvalidValue ==> header_error_text(e) == "failed to parse header value"@,
{
}

impl HeaderError {
    /// The failure in words.
    pub fn message(&self) -> (r: String)
        ensures
            r@ == header_error_text(*self),
    {
        match self {
            HeaderError::InvalidName => "invalid HTTP header name".to_owned(),
            HeaderError::InvalidValue => "failed to parse header value".to_owned(),
        }
    }
}

/// Whether a character may stand in the name of a header.
pub open spec fn is_token_char(c: char) -> bool {
    ||| 'a' <= c && c <= 'z'
    ||| 'A' <= c && c <= 'Z'
    ||| '0' <= c && c <= '9'
    ||| c == '!' || c == '#' || c == '$' || c == '%' || c == '&' || c == '\'' || c == '*' || c
        == '+' || c == '-' || c == '.' || c == '^' || c == '_' || c == '`' || c == '|' || c == '~'
}

/// Whether a text is the name of a header.
pub open spec fn is_header_name(s: Seq<char>) -> bool {
    &&& 1 <= s.len() <= 65535
    &&& forall|i: int| 0 <= i < s.len() ==> is_token_char(#[trigger] s[i])
}

/// Whether a text can be the value of a header: it holds no control character
/// but the tab.
pub open spec fn is_header_value(s: Seq<char>) -> bool {
    forall|i: int|
        0 <= i < s.len() ==> ((#[trigger] s[i]) as int >= 32 && s[i] as int != 127) || s[i] == '\t'
}

/// `reqwest::header::HeaderName` read from a text. There is one exactly for the
/// texts that are header names, and it is the text in lower case.
#[verifier::external_body]
fn parse_header_name(s: &str) -> (r: Option<String>)
    ensures
        match r {
            Some(name) => is_header_name(s@) && name@ == lower_ascii(s@),
            None => !is_header_name(s@),
        },
{
    s.parse::<reqwest::header::HeaderName>().ok().map(|n| n.as_str().to_string())
}

/// `reqwest::header::HeaderValue::from_str`. It takes exactly the texts that can
/// be header values.
#[verifier::external_body]
fn valid_header_value(s: &str) -> (r: bool)
    ensures
        r == is_header_value(s@),
{
    reqwest::header::HeaderValue::from_str(s).is_ok()
}

/// Headers with one more, if it has a value and that can be sent.
pub open spec fn with_header(
    m: Map<Seq<char>, Seq<char>>,
    name: Seq<char>,
    value: Option<Seq<char>>,
) -> Result<Map<Seq<char>, Seq<char>>, HeaderError> {
    match value {
        None => Ok(m),
        Some(v) => if is_header_value(v) {
            Ok(m.insert(name, v))
        } else {
            Err(HeaderError::InvalidValue)
        },
    }
}

/// Headers with the user's own, one after another, until one cannot be sent.
pub open spec fn with_custom(
    m: Map<Seq<char>, Seq<char>>,
    ps: Seq<(Seq<char>, String)>,
) -> Result<Map<Seq<char>, Seq<char>>, HeaderError>
    decreases ps.len(),
{
    if ps.len() == 0 {
        Ok(m)
    } else {
        match with_custom(m, ps.drop_last()) {
            Err(e) => Err(e),
            Ok(h) => if !is_header_name(ps.last().0) {
                Err(HeaderError::InvalidName)
            } else if !is_header_value(ps.last().1@) {
                Err(HeaderError::InvalidValue)
            } else {
                Ok(h.insert(lower_ascii(ps.last().0), ps.last().1@))
            },
        }
    }
}

/// The headers of a request: the user agent, the referrer and the user's own,
/// which win over the first two.
pub open spec fn request_headers(
    user_agent: Option<Seq<char>>,
    referer: Option<Seq<char>>,
    custom: Seq<(Seq<char>, String)>,
) -> Result<Map<Seq<char>, Seq<char>>, HeaderError> {
    match with_header(Map::empty(), "user-agent"@, user_agent) {
        Err(e) => Err(e),
        Ok(a) => match with_header(a, "referer"@, referer) {
            Err(e) => Err(e),
            Ok(b) => with_custom(b, custom),
        },
    }
}

/// The view of headers that may have failed.
pub open spec fn built_view(r: Result<TextMap<String>, HeaderError>) -> Result<
    Map<Seq<char>, Seq<char>>,
    HeaderError,
> {
    match r {
        Ok(m) => Ok(text_values(m@)),
        Err(e) => Err(e),
    }
}

/// One header that cannot be sent is enough.
proof fn lemma_custom_fails(m: Map<Seq<char>, Seq<char>>, ps: Seq<(Seq<char>, String)>, n: int)
    requires
        0 <= n <= ps.len(),
        with_custom(m, ps.take(n)) is Err,
    ensures
        with_custom(m, ps) == with_custom(m, ps.take(n)),
    decreases ps.len() - n,
{
    if n == ps.len() {
        assert(ps.take(n) =~= ps);
    } else {
        assert(ps.take(n + 1).drop_last() =~= ps.take(n));
        lemma_custom_fails(m, ps, n + 1);
    }
}

/// A request can be made exactly if every header of it can be sent.
pub proof fn law_requests_need_valid_headers(
    user_agent: Option<Seq<char>>,
    referer: Option<Seq<char>>,
    custom: Seq<(Seq<char>, String)>,
)
    ensures
        request_headers(user_agent, referer, custom) is Ok <==> {
            &&& user_agent is Some ==> is_header_value(user_agent->0)
            &&& referer is Some ==> is_header_value(referer->0)
            &&& forall|i: int|
                0 <= i < custom.len() ==> is_header_name((#[trigger] custom[i]).0)
                    && is_header_value(custom[i].1@)
        },
        user_agent is Some && !is_header_value(user_agent->0) ==> request_headers(
            user_agent,
            referer,
            custom,
        ) == Err::<Map<Seq<char>, Seq<char>>, HeaderError>(HeaderError::InvalidValue),
{
    if let Ok(a) = with_header(Map::empty(), "user-agent"@, user_agent) {
        if let Ok(b) = with_header(a, "referer"@, referer) {
            lemma_custom_valid(b, custom);
        }
    }
}

proof fn lemma_custom_valid(m: Map<Seq<char>, Seq<char>>, ps: Seq<(Seq<char>, String)>)
    ensures
        with_custom(m, ps) is Ok <==> forall|i: int|
            0 <= i < ps.len() ==> is_header_name((#[trigger] ps[i]).0) && is_header_value(ps[i].1@),
    decreases ps.len(),
{
    if ps.len() > 0 {
        let before = ps.drop_last();
        lemma_custom_valid(m, before);
        assert(forall|i: int| 0 <= i < before.len() ==> #[trigger] before[i] == ps[i]);
        assert(ps[ps.len() - 1] == ps.last());
        if with_custom(m, ps) is Ok {
            assert forall|i: int| 0 <= i < ps.len() implies is_header_name((#[trigger] ps[i]).0)
                && is_header_value(ps[i].1@) by {
                if i < before.len() {
                    assert(before[i] == ps[i]);
                }
            }
        }
        if forall|i: int|
            0 <= i < ps.len() ==> is_header_name((#[trigger] ps[i]).0) && is_header_value(
                ps[i].1@,
            ) {
            assert forall|i: int| 0 <= i < before.len() implies is_header_name(
                (#[trigger] before[i]).0,
            ) && is_header_value(before[i].1@) by {
                assert(before[i] == ps[i]);
            }
        }
    }
}

/// The first header that cannot be sent says why: an invalid name counts before an
/// invalid value.
pub proof fn law_first_bad_header_is_blamed(
    user_agent: Option<Seq<char>>,
    referer: Option<Seq<char>>,
    custom: Seq<(Seq<char>, String)>,
    k: int,
)
    requires
        user_agent is Some ==> is_header_value(user_agent->0),
        referer is Some ==> is_header_value(referer->0),
        0 <= k < custom.len(),
        forall|i: int|
            0 <= i < k ==> is_header_name((#[trigger] custom[i]).0) && is_header_value(
                custom[i].1@,
            ),
        !is_header_name(custom[k].0) || !is_header_value(custom[k].1@),
    ensures
        request_headers(user_agent, referer, custom) == Err::<
            Map<Seq<char>, Seq<char>>,
            HeaderError,
        >(
            if !is_header_name(custom[k].0) {
                HeaderError::InvalidName
            } else {
                HeaderError::InvalidValue
            },
        ),
{
    let a = with_header(Map::empty(), "user-agent"@, user_agent)->Ok_0;
    let b = with_header(a, "referer"@, referer)->Ok_0;
    let upto = custom.take(k);
    assert forall|i: int| 0 <= i < upto.len() implies is_header_name((#[trigger] upto[i]).0)
        && is_header_value(upto[i].1@) by {
        assert(upto[i] == custom[i]);
    }
    lemma_custom_valid(b, upto);
    let with = custom.take(k + 1);
    assert(with.drop_last() =~= upto);
    assert(with.last() == custom[k]);
    lemma_custom_fails(b, custom, k + 1);
}

/// A request carries the user's own headers, the last of each name, and the user
/// agent and the referrer where the user has no header of that name; it carries
/// nothing else.
pub proof fn law_requests_carry_what_they_are_given(
    user_agent: Option<Seq<char>>,
    referer: Option<Seq<char>>,
    custom: Seq<(Seq<char>, String)>,
    name: Seq<char>,
)
    requires
        request_headers(user_agent, referer, custom) is Ok,
    ensures
        ({
            let m = request_headers(user_agent, referer, custom)->Ok_0;
            &&& forall|k: int|
                0 <= k < custom.len() && lower_ascii((#[trigger] custom[k]).0) == name && (forall|
                    j: int,
                |
                    k < j < custom.len() ==> lower_ascii((#[trigger] custom[j]).0) != name)
                    ==> m.contains_key(name) && m[name] == custom[k].1@
            &&& (forall|k: int|
                0 <= k < custom.len() ==> lower_ascii((#[trigger] custom[k]).0) != name) ==> {
                &&& name == "user-agent"@ ==> m.get(name) == user_agent
                &&& name == "referer"@ ==> m.get(name) == referer
                &&& name != "user-agent"@ && name != "referer"@ ==> !m.contains_key(name)
            }
        }),
{
    reveal_strlit("user-agent");
    reveal_strlit("referer");
    assert("user-agent"@.len() != "referer"@.len());
    let a = with_header(Map::empty(), "user-agent"@, user_agent)->Ok_0;
    let b = with_header(a, "referer"@, referer)->Ok_0;
    lemma_custom_kept(b, custom, name);
}

proof fn lemma_custom_kept(
    m: Map<Seq<char>, Seq<char>>,
    ps: Seq<(Seq<char>, String)>,
    name: Seq<char>,
)
    requires
        with_custom(m, ps) is Ok,
    ensures
        ({
            let r = with_custom(m, ps)->Ok_0;
            &&& forall|k: int|
                0 <= k < ps.len() && lower_ascii((#[trigger] ps[k]).0) == name && (forall|j: int|
                    k < j < ps.len() ==> lower_ascii((#[trigger] ps[j]).0) != name)
                    ==> r.contains_key(name) && r[name] == ps[k].1@
            &&& (forall|k: int| 0 <= k < ps.len() ==> lower_ascii((#[trigger] ps[k]).0) != name)
                ==> r.get(name) == m.get(name)
        }),
    decreases ps.len(),
{
    if ps.len() > 0 {
        let before = ps.drop_last();
        let last = ps.len() - 1;
        lemma_custom_kept(m, before, name);
        let r = with_custom(m, ps)->Ok_0;
        let h = with_custom(m, before)->Ok_0;
        assert(forall|i: int| 0 <= i < before.len() ==> #[trigger] before[i] == ps[i]);
        assert(ps[last] == ps.last());
        assert forall|k: int|
            0 <= k < ps.len() && lower_ascii((#[trigger] ps[k]).0) == name && (forall|j: int|
                k < j < ps.len() ==> lower_ascii((#[trigger] ps[j]).0)
                    != name) implies r.contains_key(name) && r[name] == ps[k].1@ by {
            if k < last {
                assert(lower_ascii(ps[last].0) != name);
                assert(before[k] == ps[k]);
                assert forall|j: int| k < j < before.len() implies lower_ascii(
                    (#[trigger] before[j]).0,
                ) != name by {
                    assert(before[j] == ps[j]);
                }
            }
        }
        if forall|k: int| 0 <= k < ps.len() ==> lower_ascii((#[trigger] ps[k]).0) != name {
            assert(lower_ascii(ps[last].0) != name);
            assert forall|k: int| 0 <= k < before.len() implies lower_ascii(
                (#[trigger] before[k]).0,
            ) != name by {
                assert(before[k] == ps[k]);
            }
        }
    }
}

/// Puts the headers of a request together.
pub fn build_headers(
    user_agent: &Option<String>,
    referer: &Option<String>,
    custom_headers: &TextMap<String>,
) -> (r: Result<TextMap<String>, HeaderError>)
    ensures
        built_view(r) == request_headers(
            opt_text(*user_agent),
            opt_text(*referer),
            custom_headers.pairs(),
        ),
{
    let mut out: TextMap<String> = TextMap::new();
    assert(text_values(out@) =~= Map::<Seq<char>, Seq<char>>::empty());
    if let Some(ua) = user_agent {
        if !valid_header_value(ua.as_str()) {
            return Err(HeaderError::InvalidValue);
        }
        let ghost before = out@;
        out.insert("user-agent".to_owned(), ua.clone());
        assert(text_values(out@) =~= text_values(before).insert("user-agent"@, ua@));
    }
    if let Some(url) = referer {
        if !valid_header_value(url.as_str()) {
            return Err(HeaderError::InvalidValue);
        }
        let ghost before = out@;
        out.insert("referer".to_owned(), url.clone());
        assert(text_values(out@) =~= text_values(before).insert("referer"@, url@));
    }
    let n: usize = custom_headers.len();
    let ghost ps = custom_headers.pairs();
    let ghost base = text_values(out@);
    assert(ps.take(0) =~= Seq::empty());
    for i in 0..n
        invariant
            n == ps.len(),
            ps == custom_headers.pairs(),
            request_headers(opt_text(*user_agent), opt_text(*referer), ps) == with_custom(base, ps),
            with_custom(base, ps.take(i as int)) == Ok::<Map<Seq<char>, Seq<char>>, HeaderError>(
                text_values(out@),
            ),
    {
        proof {
            assert(ps.take(i + 1).drop_last() =~= ps.take(i as int));
            assert(ps.take(i + 1).last() == ps[i as int]);
        }
        let value = custom_headers.value_at(i);
        match parse_header_name(custom_headers.key_at(i).as_str()) {
            None => {
                proof {
                    lemma_custom_fails(base, ps, i + 1);
                }
                return Err(HeaderError::InvalidName);
            },
            Some(name) => {
                if !valid_header_value(value.as_str()) {
                    proof {
                        lemma_custom_fails(base, ps, i + 1);
                    }
                    return Err(HeaderError::InvalidValue);
                }
                let ghost before = out@;
                let ghost nv = name@;
                out.insert(name, value.clone());
                assert(text_values(out@) =~= text_values(before).insert(nv, value@));
            },
        }
    }
    assert(ps.take(n as int) =~= ps);
    Ok(out)
}

// ---------------------------------------------------------------------------
// Receiving a file
// ---------------------------------------------------------------------------

/// The value of the Range header that asks for everything from an offset on.
pub fn range_header(offset: u64) -> (r: String)
    ensures
        r@ == "bytes="@ + decimal(offset as nat) + "-"@,
{
    let mut out = "bytes=".to_owned();
    let digits = decimal_u64(offset);
    out.append(digits.as_str());
    out.append("-");
    out
}

/// What to do with the response to the request for a file.
pub enum TransferStep {
    /// The server cannot resume: ask again for the whole file.
    Restart,
    /// Give up.
    Fail(String),
    /// Receive the body: append it to what is there, or start the file anew,
    /// with so many bytes received already.
    Receive { append: bool, received: u64, info: DownloadInfo },
}

/// What to do with a response, as values.
pub enum StepView {
    Restart,
    Fail(Seq<char>),
    Receive { append: bool, received: u64, info: InfoView },
}

impl View for TransferStep {
    type V = StepView;

    open spec fn view(&self) -> StepView {
        match self {
            TransferStep::Restart => StepView::Restart,
            TransferStep::Fail(m) => StepView::Fail(m@),
            TransferStep::Receive { append, received, info } => StepView::Receive {
                append: *append,
                received: *received,
                info: info@,
            },
        }
    }
}

/// Whether a status reports success.
pub open spec fn is_success(status: u16) -> bool {
    200 <= status < 300
}

/// What to do with the response to a request for a file from `resume_from` on.
/// A server that refuses the range is asked again for the whole file; one that
/// wants credentials or reports a failure is given up on.
pub open spec fn transfer_step(
    resume_from: Option<u64>,
    status: u16,
    hs: Seq<HeaderView>,
) -> StepView {
    if status == 416 && resume_from is Some {
        StepView::Restart
    } else if asks_credentials(status) {
        StepView::Fail(
            error_line(status_error(status)) + ": realm="@ + (match asked_realm(status, hs) {
                Some(realm) => realm,
                None => "unknown"@,
            }),
        )
    } else if !is_success(status) {
        StepView::Fail(error_line(status_error(status)))
    } else {
        StepView::Receive {
            append: resume_from is Some,
            received: match resume_from {
                Some(n) => n,
                None => 0,
            },
            info: InfoView { auth_required: false, auth_realm: None, ..info_of(status, hs, None) },
        }
    }
}

/// A transfer is restarted at most once: without an offset there is nothing to
/// restart from.
pub proof fn law_restarts_once(status: u16, hs: Seq<HeaderView>)
    ensures
        transfer_step(None, status, hs) != StepView::Restart,
{
}

/// A body is received exactly if the status is one of the two hundreds; only a
/// refused range leads to a second request, and only where there was a range. Every
/// other status is a failure, which names the status.
pub proof fn law_only_success_is_received(
    resume_from: Option<u64>,
    status: u16,
    hs: Seq<HeaderView>,
)
    ensures
        transfer_step(resume_from, status, hs) is Receive <==> 200 <= status && status <= 299,
        transfer_step(resume_from, status, hs) is Restart <==> status == 416 && resume_from is Some,
        transfer_step(resume_from, status, hs) is Fail <==> (status < 200 || status > 299) && !(
        status == 416 && resume_from is Some),
        transfer_step(resume_from, status, hs) is Fail ==> ("HTTP "@ + decimal(status as nat)
            + " - "@).is_prefix_of(transfer_step(resume_from, status, hs)->Fail_0),
{
    if transfer_step(resume_from, status, hs) is Fail {
        let head = "HTTP "@ + decimal(status as nat) + " - "@;
        let line = head + status_error(status).description;
        assert(head =~= line.take(head.len() as int));
        let tail = ": realm="@ + (match asked_realm(status, hs) {
            Some(realm) => realm,
            None => "unknown"@,
        });
        assert(line + ": realm="@ + (match asked_realm(status, hs) {
            Some(realm) => realm,
            None => "unknown"@,
        }) =~= line + tail);
        assert(head =~= (line + tail).take(head.len() as int));
    }
}

/// What is received continues the file exactly if part of it was there, and counts
/// from the length of that part. Of the response the headers are believed; no
/// credentials are asked for then, and the URL is the one that was asked.
pub proof fn law_received_where_it_left_off(
    resume_from: Option<u64>,
    status: u16,
    hs: Seq<HeaderView>,
)
    requires
        200 <= status <= 299,
    ensures
        ({
            let step = transfer_step(resume_from, status, hs);
            let info = info_of(status, hs, None);
            &&& step->append <==> resume_from is Some
            &&& resume_from is Some ==> step->received == resume_from->0
            &&& resume_from is None ==> step->received == 0
            &&& step->info.size == info.size
            &&& step->info.resume_supported == info.resume_supported
            &&& step->info.etag == info.etag
            &&& step->info.last_modified == info.last_modified
            &&& step->info.filename == info.filename
            &&& step->info.headers == info.headers
            &&& step->info.content_type == info.content_type
            &&& step->info.status == status
            &&& !step->info.auth_required
            &&& step->info.auth_realm is None
            &&& step->info.final_url is None
        }),
{
}

/// A response that asks for credentials is a failure that names the realm, or says
/// that it is unknown.
pub proof fn law_credentials_are_asked_for(
    resume_from: Option<u64>,
    status: u16,
    hs: Seq<HeaderView>,
)
    requires
        status == 401 || status == 407,
    ensures
        ({
            let message = transfer_step(resume_from, status, hs)->Fail_0;
            let realm = info_of(status, hs, None).auth_realm;
            &&& transfer_step(resume_from, status, hs) is Fail
            &&& realm is Some ==> (": realm="@ + realm->0).is_suffix_of(message)
            &&& realm is None ==> (": realm="@ + "unknown"@).is_suffix_of(message)
        }),
{
    let line = error_line(status_error(status));
    let r = match asked_realm(status, hs) {
        Some(realm) => realm,
        None => "unknown"@,
    };
    let tail = ": realm="@ + r;
    let whole = line + ": realm="@ + r;
    assert(whole =~= line + tail);
    assert(tail =~= whole.subrange(whole.len() - tail.len(), whole.len() as int));
}

/// Decides what to do with the response to a request for a file.
pub fn decide_transfer(
    resume_from: Option<u64>,
    status: u16,
    headers: &Vec<ResponseHeader>,
) -> (r: TransferStep)
    ensures
        r@ == transfer_step(resume_from, status, header_views(headers@)),
{
    if status == 416 && resume_from.is_some() {
        return TransferStep::Restart;
    }
    let (auth_required, auth_realm) = check_auth_required(status, headers);
    if auth_required {
        let error = HttpErrorInfo::from_status(status);
        let mut message = error.format();
        message.append(": realm=");
        match auth_realm {
            Some(realm) => {
                message.append(realm.as_str());
            },
            None => {
                message.append("unknown");
            },
        }
        return TransferStep::Fail(message);
    }
    if status < 200 || status >= 300 {
        let error = HttpErrorInfo::from_status(status);
        return TransferStep::Fail(error.format());
    }
    let mut info = DownloadInfo::from_response(status, headers, None);
    info.auth_required = false;
    info.auth_realm = None;
    TransferStep::Receive {
        append: resume_from.is_some(),
        received: match resume_from {
            Some(n) => n,
            None => 0,
        },
        info,
    }
}

/// How far a transfer is.
#[derive(Debug, Clone, Copy, PartialEq, Eq, Structural)]
pub struct ProgressReport {
    pub received: u64,
    pub total: Option<u64>,
}

/// Decides when the progress of a transfer is reported: after every mebibyte,
/// after every half second, and at the end.
#[derive(Debug, Clone, Copy, PartialEq, Eq, Structural)]
pub struct ProgressMeter {
    pub received: u64,
    pub total: Option<u64>,
    pub reported: u64,
    /// When progress was last reported, in nanoseconds.
    pub reported_at: u128,
}

/// A report is due when this many bytes have come in since the last.
pub const REPORT_BYTES: u64 = 1_048_576;

/// A report is due when this many nanoseconds have passed since the last.
pub const REPORT_NANOS: u128 = 500_000_000;

/// The report of a meter as it stands.
pub open spec fn report_of(m: ProgressMeter) -> ProgressReport {
    ProgressReport { received: m.received, total: m.total }
}

/// The meter after a chunk of the given size came in at the moment `now`, and
/// the report, if one is due.
pub open spec fn chunk_counted(m: ProgressMeter, size: u64, now: u128) -> (
    ProgressMeter,
    Option<ProgressReport>,
) {
    let received = (m.received + size) as u64;
    if received - m.reported >= REPORT_BYTES || (now >= m.reported_at && now - m.reported_at
        >= REPORT_NANOS) {
        let next = ProgressMeter { received, reported: received, reported_at: now, ..m };
        (next, Some(report_of(next)))
    } else {
        (ProgressMeter { received, ..m }, None)
    }
}

/// Between reports less than a mebibyte goes unreported.
pub proof fn law_reports_keep_up(m: ProgressMeter, size: u64, now: u128)
    requires
        m.reported <= m.received,
        m.received + size <= u64::MAX,
    ensures
        chunk_counted(m, size, now).0.received == m.received + size,
        chunk_counted(m, size, now).0.received - chunk_counted(m, size, now).0.reported
            < REPORT_BYTES,
        chunk_counted(m, size, now).0.reported <= chunk_counted(m, size, now).0.received,
{
}

/// Progress is reported once a mebibyte has come in or half a second has passed
/// since the last report, and not before; a report says what has come in.
pub proof fn law_reports_are_due(m: ProgressMeter, size: u64, now: u128)
    requires
        m.reported <= m.received,
        m.received + size <= u64::MAX,
    ensures
        ({
            let (n, report) = chunk_counted(m, size, now);
            &&& report is Some <==> m.received + size - m.reported >= 1024 * 1024 || now
                - m.reported_at >= 500_000_000
            &&& report is Some ==> report->0.received == m.received + size && report->0.total
                == m.total && n.reported == n.received && n.reported_at == now
            &&& report is None ==> n.reported == m.reported && n.reported_at == m.reported_at
            &&& n.received == m.received + size
            &&& n.total == m.total
        }),
{
}

/// The bytes of several chunks, each with its size and its moment.
pub open spec fn chunk_bytes(chunks: Seq<(u64, u128)>) -> nat
    decreases chunks.len(),
{
    if chunks.len() == 0 {
        0
    } else {
        chunk_bytes(chunks.drop_last()) + chunks.last().0 as nat
    }
}

/// The meter after several chunks.
pub open spec fn chunks_counted(m: ProgressMeter, chunks: Seq<(u64, u128)>) -> ProgressMeter
    decreases chunks.len(),
{
    if chunks.len() == 0 {
        m
    } else {
        chunk_counted(chunks_counted(m, chunks.drop_last()), chunks.last().0, chunks.last().1).0
    }
}

/// The reports while several chunks come in.
pub open spec fn chunk_reports(m: ProgressMeter, chunks: Seq<(u64, u128)>) -> Seq<ProgressReport>
    decreases chunks.len(),
{
    if chunks.len() == 0 {
        Seq::empty()
    } else {
        let before = chunk_reports(m, chunks.drop_last());
        match chunk_counted(
            chunks_counted(m, chunks.drop_last()),
            chunks.last().0,
            chunks.last().1,
        ).1 {
            Some(r) => before.push(r),
            None => before,
        }
    }
}

/// All the reports of a transfer of several chunks.
pub open spec fn transfer_reports(m: ProgressMeter, chunks: Seq<(u64, u128)>) -> Seq<
    ProgressReport,
> {
    chunk_reports(m, chunks).push(report_of(chunks_counted(m, chunks)))
}

proof fn lemma_chunk_reports(m: ProgressMeter, chunks: Seq<(u64, u128)>)
    requires
        m.reported <= m.received,
        m.received + chunk_bytes(chunks) <= u64::MAX,
    ensures
        ({
            let rs = chunk_reports(m, chunks);
            let end = chunks_counted(m, chunks);
            &&& end.received == m.received + chunk_bytes(chunks)
            &&& end.total == m.total
            &&& end.reported <= end.received
            &&& forall|i: int|
                0 <= i < rs.len() ==> (#[trigger] rs[i]).total == m.total && m.received
                    <= rs[i].received <= end.received
            &&& forall|i: int, j: int|
                0 <= i <= j < rs.len() ==> (#[trigger] rs[i]).received <= (
                #[trigger] rs[j]).received
        }),
    decreases chunks.len(),
{
    if chunks.len() > 0 {
        lemma_chunk_reports(m, chunks.drop_last());
    }
}

/// The reports of a transfer never fall, all name the total that the transfer
/// started with, and the last is of all the bytes that came in.
pub proof fn law_reports_climb_to_the_end(m: ProgressMeter, chunks: Seq<(u64, u128)>)
    requires
        m.reported <= m.received,
        m.received + chunk_bytes(chunks) <= u64::MAX,
    ensures
        ({
            let rs = transfer_reports(m, chunks);
            &&& rs.last().received == m.received + chunk_bytes(chunks)
            &&& forall|i: int| 0 <= i < rs.len() ==> (#[trigger] rs[i]).total == m.total
            &&& forall|i: int, j: int|
                0 <= i <= j < rs.len() ==> (#[trigger] rs[i]).received <= (
                #[trigger] rs[j]).received
        }),
{
    lemma_chunk_reports(m, chunks);
}

/// The meter of a transfer that starts at the moment `now` with so many bytes
/// received already, of so many in all, if that is known.
pub open spec fn meter_for(received: u64, total: Option<u64>, now: u128) -> ProgressMeter {
    ProgressMeter { received, total, reported: received, reported_at: now }
}

/// The last report of a transfer is of the bytes there were and the bytes that
/// came in, and every report names the length that the response has.
pub proof fn law_transfer_is_reported(
    resume_from: Option<u64>,
    status: u16,
    hs: Seq<HeaderView>,
    now: u128,
    chunks: Seq<(u64, u128)>,
)
    requires
        transfer_step(resume_from, status, hs) is Receive,
        transfer_step(resume_from, status, hs)->received + chunk_bytes(chunks) <= u64::MAX,
    ensures
        ({
            let step = transfer_step(resume_from, status, hs);
            let rs = transfer_reports(meter_for(step->received, step->info.size, now), chunks);
            &&& rs.len() > 0
            &&& rs.last().received == (match resume_from {
                Some(n) => n as nat,
                None => 0,
            }) + chunk_bytes(chunks)
            &&& forall|i: int|
                0 <= i < rs.len() ==> (#[trigger] rs[i]).total == opt_number(
                    header_value(hs, "content-length"@),
                )
            &&& forall|i: int, j: int|
                0 <= i <= j < rs.len() ==> (#[trigger] rs[i]).received <= (
                #[trigger] rs[j]).received
        }),
{
    let step = transfer_step(resume_from, status, hs);
    law_reports_climb_to_the_end(meter_for(step->received, step->info.size, now), chunks);
}

impl ProgressMeter {
    /// A meter for a transfer that starts at the moment `now` with so many
    /// bytes received already, of so many in all, if that is known.
    pub fn new(received: u64, total: Option<u64>, now: u128) -> (r: ProgressMeter)
        ensures
            r == meter_for(received, total, now),
    {
        ProgressMeter { received, total, reported: received, reported_at: now }
    }

    /// Counts a chunk that came in at the moment `now`, and gives the report, if
    /// one is due.
    pub fn count_chunk(&mut self, size: u64, now: u128) -> (r: Option<ProgressReport>)
        requires
            old(self).reported <= old(self).received,
            old(self).received + size <= u64::MAX,
        ensures
            *final(self) == chunk_counted(*old(self), size, now).0,
            r == chunk_counted(*old(self), size, now).1,
            final(self).reported <= final(self).received,
    {
        self.received = self.received + size;
        if self.received - self.reported >= REPORT_BYTES || (now >= self.reported_at && now
            - self.reported_at >= REPORT_NANOS) {
            self.reported = self.received;
            self.reported_at = now;
            Some(ProgressReport { received: self.received, total: self.total })
        } else {
            None
        }
    }

    /// The report at the end of the transfer.
    pub fn finish(&self) -> (r: ProgressReport)
        ensures
            r == report_of(*self),
    {
        ProgressReport { received: self.received, total: self.total }
    }
}

/// The response to a request for a file is received exactly if its status is one of the
/// two hundreds; it continues the file where part of it was asked for.
pub proof fn law_decide_transfer(
    resume_from: Option<u64>,
    status: u16,
    headers: &Vec<ResponseHeader>,
    r: TransferStep,
)
    requires
        call_ensures(decide_transfer, (resume_from, status, headers), r),
    ensures
        r@ is Receive <==> 200 <= status && status <= 299,
        r@ is Restart <==> status == 416 && resume_from is Some,
        r@ is Receive ==> (r@->append <==> resume_from is Some) && r@->received == (
        if resume_from is Some {
            resume_from->0
        } else {
            0
        }) && r@->info.status == status && !r@->info.auth_required,
{
    law_only_success_is_received(resume_from, status, header_views(headers@));
    if 200 <= status <= 299 {
        law_received_where_it_left_off(resume_from, status, header_views(headers@));
    }
}

/// Credentials are asked for by two statuses, and by no other.
pub proof fn law_check_auth_required(
    status: u16,
    headers: &Vec<ResponseHeader>,
    r: (bool, Option<String>),
)
    requires
        call_ensures(check_auth_required, (status, headers), r),
    ensures
        r.0 <==> status == 401 || status == 407,
        !r.0 ==> r.1 is None,
{
}

} // verus!

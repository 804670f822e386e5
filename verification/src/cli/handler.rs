//! What the commands read and decide.

use vstd::prelude::*;
use vstd::string::*;
use crate::ids::{parse_uuid, uuid_bits};
use crate::text::{
    begins_with, contains_text, holds_text, le_text, lemma_text_le_total,
    lemma_text_le_trans, lines, lines_of, starts_with, text_eq, text_le, texts, to_uppercase, trim,
    trimmed, unicode_upper,
};
use crate::web::{parse_url, url_parts, ParsedUrl, UrlParts};

verus! {

// ---------------------------------------------------------------------------
// Ids and URLs
// ---------------------------------------------------------------------------

/// The id of a download, given what a text denotes as a UUID.
pub fn task_id_of(bits: Option<u128>) -> (r: Result<u128, String>)
    ensures
        match bits {
            Some(id) => r == Ok::<u128, String>(id),
            None => r is Err && r->Err_0@ == "Invalid UUID format"@,
        },
{
    match bits {
        Some(id) => Ok(id),
        None => Err("Invalid UUID format".to_owned()),
    }
}

/// The id of a download that a text denotes.
pub fn parse_task_id(id: &str) -> (r: Result<u128, String>)
    ensures
        match uuid_bits(id@) {
            Some(bits) => r == Ok::<u128, String>(bits),
            None => r is Err && r->Err_0@ == "Invalid UUID format"@,
        },
{
    let bits = parse_uuid(id);
    task_id_of(bits)
}

/// Whether something with these parts can be downloaded.
pub open spec fn scheme_allowed(parts: Option<UrlParts>) -> bool {
    match parts {
        Some(u) => u.scheme == "http"@ || u.scheme == "https"@ || u.scheme == "ftp"@ || u.scheme
            == "ftps"@,
        None => false,
    }
}

/// What can be downloaded has a URL, and one of four schemes.
pub proof fn law_four_schemes(parts: Option<UrlParts>)
    ensures
        scheme_allowed(parts) <==> parts is Some && (parts->0.scheme == "http"@ || parts->0.scheme
            == "https"@ || parts->0.scheme == "ftp"@ || parts->0.scheme == "ftps"@),
{
}

/// Whether something can be downloaded, given the parts of its URL, if it has
/// one.
pub fn has_allowed_scheme(url: &Option<ParsedUrl>) -> (r: bool)
    ensures
        r == scheme_allowed(match url {
            Some(u) => Some(u@),
            None => None,
        }),
{
    match url {
        Some(u) => {
            let s = u.scheme.as_str();
            text_eq(s, "http") || text_eq(s, "https") || text_eq(s, "ftp") || text_eq(s, "ftps")
        },
        None => false,
    }
}

/// Whether a text is a URL that can be downloaded.
pub fn is_valid_download_url(text: &str) -> (r: bool)
    ensures
        r == scheme_allowed(url_parts(text@)),
{
    let url = parse_url(text);
    has_allowed_scheme(&url)
}

// ---------------------------------------------------------------------------
// Logs
// ---------------------------------------------------------------------------

/// The beginning of the names of the application's logs.
pub open spec fn log_prefix() -> Seq<char> {
    "app.jsonl"@
}

/// The newest of the application's logs among the files of a directory: the last
/// of them in the order of code points, as their names end in the day.
pub fn latest_log(names: &Vec<String>) -> (r: Option<String>)
    ensures
        match r {
            Some(n) => texts(names@).contains(n@) && begins_with(n@, log_prefix()) && forall|i: int|
                0 <= i < names@.len() && begins_with((#[trigger] names@[i])@, log_prefix())
                    ==> text_le(names@[i]@, n@),
            None => forall|i: int|
                0 <= i < names@.len() ==> !begins_with((#[trigger] names@[i])@, log_prefix()),
        },
{
    let mut best: Option<usize> = None;
    for i in 0..names.len()
        invariant
            match best {
                Some(b) => b < i && begins_with(names@[b as int]@, log_prefix()) && forall|k: int|
                    0 <= k < i && begins_with((#[trigger] names@[k])@, log_prefix()) ==> text_le(
                        names@[k]@,
                        names@[b as int]@,
                    ),
                None => forall|k: int|
                    0 <= k < i ==> !begins_with((#[trigger] names@[k])@, log_prefix()),
            },
    {
        if starts_with(names[i].as_str(), "app.jsonl") {
            match best {
                None => {
                    proof {
                        lemma_text_le_total(names@[i as int]@, names@[i as int]@);
                    }
                    best = Some(i);
                },
                Some(b) => {
                    if le_text(names[b].as_str(), names[i].as_str()) {
                        proof {
                            lemma_text_le_total(names@[i as int]@, names@[i as int]@);
                            assert forall|k: int|
                                0 <= k < i + 1 && begins_with(
                                    (#[trigger] names@[k])@,
                                    log_prefix(),
                                ) implies text_le(names@[k]@, names@[i as int]@) by {
                                if k < i {
                                    lemma_text_le_trans(
                                        names@[k]@,
                                        names@[b as int]@,
                                        names@[i as int]@,
                                    );
                                }
                            }
                        }
                        best = Some(i);
                    } else {
                        proof {
                            lemma_text_le_total(names@[i as int]@, names@[b as int]@);
                        }
                    }
                },
            }
        }
    }
    match best {
        Some(b) => {
            let n = names[b].clone();
            assert(texts(names@)[b as int] == n@);
            Some(n)
        },
        None => None,
    }
}

/// The lines that hold a text, or all lines where there is none to hold.
pub open spec fn lines_with(ls: Seq<Seq<char>>, needle: Option<Seq<char>>) -> Seq<Seq<char>>
    decreases ls.len(),
{
    if ls.len() == 0 {
        Seq::empty()
    } else if needle is None || holds_text(ls.last(), needle->0) {
        lines_with(ls.drop_last(), needle).push(ls.last())
    } else {
        lines_with(ls.drop_last(), needle)
    }
}

/// The last `n` of some texts, or all of them where there are fewer.
pub open spec fn last_of(ls: Seq<Seq<char>>, n: nat) -> Seq<Seq<char>> {
    if ls.len() <= n {
        ls
    } else {
        ls.skip(ls.len() - n)
    }
}

/// The lines that hold a text are kept in their order, and no others; without a text
/// all are kept.
pub proof fn law_lines_that_hold_a_text(ls: Seq<Seq<char>>, needle: Option<Seq<char>>)
    ensures
        needle is None ==> lines_with(ls, needle) == ls,
        needle is Some ==> lines_with(ls, needle) == ls.filter(
            |l: Seq<char>| exists|i: int|
                0 <= i && i + needle->0.len() <= l.len() && #[trigger] l.subrange(
                    i,
                    i + needle->0.len(),
                ) == needle->0,
        ),
    decreases ls.len(),
{
    reveal(Seq::filter);
    if ls.len() > 0 {
        law_lines_that_hold_a_text(ls.drop_last(), needle);
        assert(ls.drop_last().push(ls.last()) =~= ls);
        if needle is Some {
            let l = ls.last();
            let n = needle->0;
            if holds_text(l, n) {
                let i = choose|i: int| crate::text::occurs_at(l, n, i);
                assert(l.subrange(i, i + n.len()) == n);
            }
            if exists|i: int|
                0 <= i && i + n.len() <= l.len() && #[trigger] l.subrange(i, i + n.len()) == n {
                let i = choose|i: int|
                    0 <= i && i + n.len() <= l.len() && #[trigger] l.subrange(i, i + n.len()) == n;
                assert(crate::text::occurs_at(l, n, i));
            }
        }
    }
}

/// The last of some texts are the end of them, as many as are wanted and there.
pub proof fn law_last_ones(ls: Seq<Seq<char>>, n: nat)
    ensures
        last_of(ls, n).is_suffix_of(ls),
        ls.len() >= n ==> last_of(ls, n).len() == n,
        ls.len() < n ==> last_of(ls, n) == ls,
{
    let r = last_of(ls, n);
    assert(r =~= ls.subrange(ls.len() - r.len(), ls.len() as int));
}

/// The view of an optional text.
pub open spec fn opt_str(o: Option<&str>) -> Option<Seq<char>> {
    match o {
        Some(s) => Some(s@),
        None => None,
    }
}

/// The last lines of a log that hold a text.
pub fn last_lines_with(content: &str, needle: Option<&str>, count: usize) -> (r: Vec<String>)
    ensures
        texts(r@) == last_of(lines_with(lines_of(content@), opt_str(needle)), count as nat),
{
    let all = lines(content);
    let ghost ls = texts(all@);
    let ghost want = opt_str(needle);
    let mut kept: Vec<String> = Vec::new();
    assert(texts(kept@) =~= Seq::<Seq<char>>::empty());
    assert(ls.take(0) =~= Seq::<Seq<char>>::empty());
    for i in 0..all.len()
        invariant
            ls == texts(all@),
            want == opt_str(needle),
            texts(kept@) == lines_with(ls.take(i as int), want),
    {
        assert(ls.take(i + 1).drop_last() =~= ls.take(i as int));
        let keep = match needle {
            Some(t) => contains_text(all[i].as_str(), t),
            None => true,
        };
        if keep {
            let l = all[i].clone();
            assert(texts(kept@.push(l)) =~= texts(kept@).push(l@));
            kept.push(l);
        }
    }
    assert(ls.take(ls.len() as int) =~= ls);
    let ghost ks = texts(kept@);
    let n: usize = kept.len();
    let start: usize = if n <= count {
        0
    } else {
        n - count
    };
    let mut r: Vec<String> = Vec::new();
    assert(texts(r@) =~= ks.subrange(start as int, start as int));
    for i in start..n
        invariant
            ks == texts(kept@),
            n == kept@.len(),
            texts(r@) == ks.subrange(start as int, i as int),
    {
        let l = kept[i].clone();
        assert(texts(r@.push(l)) =~= texts(r@).push(l@));
        assert(ks.subrange(start as int, i + 1) =~= ks.subrange(start as int, i as int).push(
            ks[i as int],
        ));
        r.push(l);
    }
    assert(ks.subrange(start as int, n as int) =~= last_of(ks, count as nat));
    r
}

/// How many lines of a log are shown where the user names no number.
pub const LOG_LINES: usize = 50;

/// What a line must hold to be of a level: the level in upper case.
pub open spec fn level_needle(level: Option<Seq<char>>) -> Option<Seq<char>> {
    match level {
        Some(l) => Some(unicode_upper(l)),
        None => None,
    }
}

/// A line is of a level if it holds the level in upper case; without a level every line
/// counts.
pub proof fn law_levels_in_upper_case(level: Option<Seq<char>>)
    ensures
        level is Some ==> level_needle(level) == Some(unicode_upper(level->0)),
        level is None ==> level_needle(level) is None,
{
}

/// The last lines of a log that are of a level.
pub fn select_log_lines(content: &str, level: Option<&str>, count: Option<usize>) -> (r: Vec<
    String,
>)
    ensures
        texts(r@) == last_of(
            lines_with(lines_of(content@), level_needle(opt_str(level))),
            match count {
                Some(n) => n as nat,
                None => LOG_LINES as nat,
            },
        ),
{
    let n: usize = match count {
        Some(n) => n,
        None => LOG_LINES,
    };
    match level {
        Some(l) => {
            let needle = to_uppercase(l);
            last_lines_with(content, Some(needle.as_str()), n)
        },
        None => last_lines_with(content, None, n),
    }
}

/// Whether a line of a log is of a level.
pub fn line_of_level(line: &str, level: Option<&str>) -> (r: bool)
    ensures
        r == (level is None || holds_text(line@, unicode_upper(level->0@))),
{
    match level {
        Some(l) => {
            let needle = to_uppercase(l);
            contains_text(line, needle.as_str())
        },
        None => true,
    }
}

/// The lines of a text that are not blank.
pub open spec fn filled(ls: Seq<Seq<char>>) -> Seq<Seq<char>>
    decreases ls.len(),
{
    if ls.len() == 0 {
        Seq::empty()
    } else if trimmed(ls.last()).len() > 0 {
        filled(ls.drop_last()).push(ls.last())
    } else {
        filled(ls.drop_last())
    }
}

/// The lines that are kept are those with more than white space in them, as they are.
pub proof fn law_blank_lines_are_left_out(ls: Seq<Seq<char>>)
    ensures
        filled(ls) == ls.filter(|l: Seq<char>| trimmed(l).len() > 0),
    decreases ls.len(),
{
    reveal(Seq::filter);
    if ls.len() > 0 {
        law_blank_lines_are_left_out(ls.drop_last());
    }
}

/// The lines of a text that are not blank.
pub fn filled_lines(content: &str) -> (r: Vec<String>)
    ensures
        texts(r@) == filled(lines_of(content@)),
{
    let all = lines(content);
    let ghost ls = texts(all@);
    let mut r: Vec<String> = Vec::new();
    assert(texts(r@) =~= Seq::<Seq<char>>::empty());
    assert(ls.take(0) =~= Seq::<Seq<char>>::empty());
    for i in 0..all.len()
        invariant
            ls == texts(all@),
            texts(r@) == filled(ls.take(i as int)),
    {
        assert(ls.take(i + 1).drop_last() =~= ls.take(i as int));
        let bare = trim(all[i].as_str());
        if !bare.as_str().is_empty() {
            let l = all[i].clone();
            assert(texts(r@.push(l)) =~= texts(r@).push(l@));
            r.push(l);
        }
    }
    assert(ls.take(ls.len() as int) =~= ls);
    r
}

/// The URLs in a list: lines without white space at their ends, blank lines and
/// lines that start with `#` left out.
pub open spec fn listed_urls(ls: Seq<Seq<char>>) -> Seq<Seq<char>>
    decreases ls.len(),
{
    if ls.len() == 0 {
        Seq::empty()
    } else {
        let url = trimmed(ls.last());
        if url.len() > 0 && url[0] != '#' {
            listed_urls(ls.drop_last()).push(url)
        } else {
            listed_urls(ls.drop_last())
        }
    }
}

/// The URLs of a list are its lines without white space around them, but for blank
/// lines and those that start with a number sign.
pub proof fn law_urls_of_a_list(ls: Seq<Seq<char>>)
    ensures
        listed_urls(ls) == ls.map_values(|l: Seq<char>| trimmed(l)).filter(
            |u: Seq<char>| u.len() > 0 && u[0] != '#',
        ),
    decreases ls.len(),
{
    reveal(Seq::filter);
    let bare = |l: Seq<char>| trimmed(l);
    let wanted = |u: Seq<char>| u.len() > 0 && u[0] != '#';
    let all = ls.map_values(bare);
    if ls.len() > 0 {
        law_urls_of_a_list(ls.drop_last());
        assert(all.drop_last() =~= ls.drop_last().map_values(bare));
        assert(all.last() == trimmed(ls.last()));
    } else {
        assert(all.filter(wanted) =~= Seq::empty());
    }
}

/// The URLs in a list.
pub fn batch_urls(content: &str) -> (r: Vec<String>)
    ensures
        texts(r@) == listed_urls(lines_of(content@)),
{
    let all = lines(content);
    let ghost ls = texts(all@);
    let mut r: Vec<String> = Vec::new();
    assert(texts(r@) =~= Seq::<Seq<char>>::empty());
    assert(ls.take(0) =~= Seq::<Seq<char>>::empty());
    proof {
        reveal_strlit("#");
        assert("#"@.len() == 1);
        assert("#"@[0] == '#');
    }
    for i in 0..all.len()
        invariant
            ls == texts(all@),
            texts(r@) == listed_urls(ls.take(i as int)),
            "#"@.len() == 1,
            "#"@[0] == '#',
    {
        assert(ls.take(i + 1).drop_last() =~= ls.take(i as int));
        let url = trim(all[i].as_str());
        let comment = starts_with(url.as_str(), "#");
        proof {
            if url@.len() > 0 {
                assert(url@.take(1)[0] == url@[0]);
                if url@[0] == '#' {
                    assert(url@.take(1) =~= "#"@);
                }
            }
        }
        if !url.as_str().is_empty() && !comment {
            assert(texts(r@.push(url)) =~= texts(r@).push(url@));
            r.push(url);
        }
    }
    assert(ls.take(ls.len() as int) =~= ls);
    r
}

/// What can be downloaded is a URL with one of four schemes.
pub proof fn law_is_valid_download_url(text: &str, r: bool)
    requires
        call_ensures(is_valid_download_url, (text,), r),
    ensures
        r <==> url_parts(text@) is Some && (url_parts(text@)->0.scheme == "http"@ || url_parts(
            text@,
        )->0.scheme == "https"@ || url_parts(text@)->0.scheme == "ftp"@ || url_parts(
            text@,
        )->0.scheme == "ftps"@),
{
}

/// The id of a download is what its text denotes as a UUID, and nothing else is one.
pub proof fn law_parse_task_id(id: &str, r: Result<u128, String>)
    requires
        call_ensures(parse_task_id, (id,), r),
    ensures
        r is Ok <==> uuid_bits(id@) is Some,
        r is Ok ==> uuid_bits(id@) == Some(r->Ok_0),
{
}

/// Of a log the last lines of the level are shown, as many as are wanted, or else fifty.
pub proof fn law_select_log_lines(
    content: &str,
    level: Option<&str>,
    count: Option<usize>,
    r: Vec<String>,
)
    requires
        call_ensures(select_log_lines, (content, level, count), r),
    ensures
        count is Some ==> r@.len() <= count->0,
        count is None ==> r@.len() <= 50,
        level is None ==> texts(r@).is_suffix_of(lines_of(content@)),
        level is None && count is None && lines_of(content@).len() >= 50 ==> r@.len() == 50,
        level is None && count is Some && lines_of(content@).len() >= count->0 ==> r@.len()
            == count->0,
{
    let needle = level_needle(opt_str(level));
    let kept = lines_with(lines_of(content@), needle);
    let n = match count {
        Some(c) => c as nat,
        None => LOG_LINES as nat,
    };
    law_lines_that_hold_a_text(lines_of(content@), needle);
    law_last_ones(kept, n);
    assert(texts(r@).len() == r@.len());
}

/// The newest log is the last of those whose names start as the application's do.
pub proof fn law_latest_log(names: &Vec<String>, r: Option<String>, i: int)
    requires
        call_ensures(latest_log, (names,), r),
        r is Some,
        0 <= i < names@.len(),
    ensures
        begins_with(names@[i]@, "app.jsonl"@) ==> text_le(names@[i]@, r->0@),
        begins_with(r->0@, "app.jsonl"@) && texts(names@).contains(r->0@),
{
}

} // verus!

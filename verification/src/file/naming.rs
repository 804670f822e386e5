//! File names that every file system takes, and that do not collide.

use vstd::prelude::*;
use vstd::string::*;
use crate::clock::{current_moment, to_unix_millis};
use crate::text::{
    after_last, before_first, chars_of, cut_before_first, decimal, decimal_i64, decimal_int,
    law_after_the_last, leading, lemma_decimal, lemma_leading, lemma_leading_bound, lemma_trailing,
    lemma_trailing_bound, opt_text, other_than, string_of, text_eq, trailing, upper_ascii,
    upper_ascii_text, upper_char,
};

verus! {

// ---------------------------------------------------------------------------
// Sanitizing
// ---------------------------------------------------------------------------

/// The characters that some file system gives a meaning of its own.
pub open spec fn is_invalid(c: char) -> bool {
    c == '<' || c == '>' || c == ':' || c == '"' || c == '/' || c == '\\' || c == '|' || c == '?'
        || c == '*'
}

/// The control characters (the Unicode category `Cc`).
pub open spec fn is_control(c: char) -> bool {
    (c as int) <= 0x1F || 0x7F <= (c as int) <= 0x9F
}

/// A character, or an underscore in the place of one that no file name may hold.
pub open spec fn safe_char(c: char) -> char {
    if is_invalid(c) || is_control(c) {
        '_'
    } else {
        c
    }
}

/// A name with an underscore in the place of every character that no file name
/// may hold.
pub open spec fn replaced(name: Seq<char>) -> Seq<char> {
    name.map_values(|c: char| safe_char(c))
}

/// The names that Windows keeps for devices.
pub open spec fn is_reserved(base: Seq<char>) -> bool {
    ||| base == "CON"@
    ||| base == "PRN"@
    ||| base == "AUX"@
    ||| base == "NUL"@
    ||| base == "COM1"@
    ||| base == "COM2"@
    ||| base == "COM3"@
    ||| base == "COM4"@
    ||| base == "COM5"@
    ||| base == "COM6"@
    ||| base == "COM7"@
    ||| base == "COM8"@
    ||| base == "COM9"@
    ||| base == "LPT1"@
    ||| base == "LPT2"@
    ||| base == "LPT3"@
    ||| base == "LPT4"@
    ||| base == "LPT5"@
    ||| base == "LPT6"@
    ||| base == "LPT7"@
    ||| base == "LPT8"@
    ||| base == "LPT9"@
}

/// The characters that a name may not end with.
pub open spec fn dropped_at_end() -> spec_fn(char) -> bool {
    |c: char| c == ' ' || c == '.'
}

/// `s` without spaces and dots at its end.
pub open spec fn end_trimmed(s: Seq<char>) -> Seq<char> {
    s.take(s.len() - trailing(s, dropped_at_end()))
}

/// Whether the part of a name before its first dot is reserved, in whatever
/// letter case. No character outside ASCII has an upper case that stands in a
/// reserved name, so ASCII letters are all that counts.
pub open spec fn names_device(name: Seq<char>) -> bool {
    is_reserved(upper_ascii(before_first(name, '.')))
}

/// A name made safe, given the name with unsafe characters replaced: a reserved
/// name gets an underscore before it, spaces and dots at the end go, and an
/// empty name becomes an underscore.
pub open spec fn finished(name: Seq<char>) -> Seq<char> {
    let marked = if names_device(name) {
        seq!['_'] + name
    } else {
        name
    };
    let ended = end_trimmed(marked);
    if ended.len() == 0 {
        seq!['_']
    } else {
        ended
    }
}

/// A name made safe.
pub open spec fn sanitized(name: Seq<char>) -> Seq<char> {
    finished(replaced(name))
}

/// Whether `s` is a name that sanitizing may give: not empty, without unsafe
/// characters, and not ending with a space or a dot.
pub open spec fn is_safe(s: Seq<char>) -> bool {
    &&& s.len() > 0
    &&& forall|i: int|
        0 <= i < s.len() ==> !is_invalid(#[trigger] s[i]) && !is_control(s[i])
    &&& s.last() != ' ' && s.last() != '.'
}

/// A character is replaced exactly if it is a control character or one of those
/// that some file system gives a meaning; nothing else about a name changes.
pub proof fn law_replaced_one_for_one(name: Seq<char>, i: int)
    requires
        0 <= i < name.len(),
    ensures
        replaced(name).len() == name.len(),
        "<>:\"/\\|?*"@.contains(name[i]) || (name[i] as int) < 32 || 127 <= (name[i] as int) < 160
            ==> replaced(name)[i] == '_',
        !("<>:\"/\\|?*"@.contains(name[i]) || (name[i] as int) < 32 || 127 <= (name[i] as int)
            < 160) ==> replaced(name)[i] == name[i],
{
    reveal_strlit("<>:\"/\\|?*");
    let bad = "<>:\"/\\|?*"@;
    assert(bad[0] == '<' && bad[1] == '>' && bad[2] == ':' && bad[3] == '"' && bad[4] == '/'
        && bad[5] == '\\' && bad[6] == '|' && bad[7] == '?' && bad[8] == '*');
    assert(bad.contains(name[i]) <==> is_invalid(name[i]));
}

/// The reserved names are the four devices, and the ports `COM` and `LPT` with a
/// digit other than zero.
pub proof fn law_reserved_names(base: Seq<char>)
    ensures
        is_reserved(base) <==> {
            ||| base == "CON"@
            ||| base == "PRN"@
            ||| base == "AUX"@
            ||| base == "NUL"@
            ||| base.len() == 4 && (base.take(3) == "COM"@ || base.take(3) == "LPT"@) && '1'
                <= base[3] && base[3] <= '9'
        },
{
    reveal_strlit("CON");
    reveal_strlit("PRN");
    reveal_strlit("AUX");
    reveal_strlit("NUL");
    reveal_strlit("COM");
    reveal_strlit("LPT");
    reveal_strlit("COM1");
    reveal_strlit("COM2");
    reveal_strlit("COM3");
    reveal_strlit("COM4");
    reveal_strlit("COM5");
    reveal_strlit("COM6");
    reveal_strlit("COM7");
    reveal_strlit("COM8");
    reveal_strlit("COM9");
    reveal_strlit("LPT1");
    reveal_strlit("LPT2");
    reveal_strlit("LPT3");
    reveal_strlit("LPT4");
    reveal_strlit("LPT5");
    reveal_strlit("LPT6");
    reveal_strlit("LPT7");
    reveal_strlit("LPT8");
    reveal_strlit("LPT9");
    if base.len() == 4 {
        let port = base.take(3);
        let c = base[3];
        assert(base =~= port.push(c));
        assert("COM"@.push('1') =~= "COM1"@);
        assert("COM"@.push('2') =~= "COM2"@);
        assert("COM"@.push('3') =~= "COM3"@);
        assert("COM"@.push('4') =~= "COM4"@);
        assert("COM"@.push('5') =~= "COM5"@);
        assert("COM"@.push('6') =~= "COM6"@);
        assert("COM"@.push('7') =~= "COM7"@);
        assert("COM"@.push('8') =~= "COM8"@);
        assert("COM"@.push('9') =~= "COM9"@);
        assert("LPT"@.push('1') =~= "LPT1"@);
        assert("LPT"@.push('2') =~= "LPT2"@);
        assert("LPT"@.push('3') =~= "LPT3"@);
        assert("LPT"@.push('4') =~= "LPT4"@);
        assert("LPT"@.push('5') =~= "LPT5"@);
        assert("LPT"@.push('6') =~= "LPT6"@);
        assert("LPT"@.push('7') =~= "LPT7"@);
        assert("LPT"@.push('8') =~= "LPT8"@);
        assert("LPT"@.push('9') =~= "LPT9"@);
        if is_reserved(base) {
            assert(port =~= "COM"@ || port =~= "LPT"@);
        }
    }
}

/// A sanitized name is the name with its characters replaced, an underscore before
/// it if what stands before its first dot is reserved, in whatever letter case, and
/// without the spaces and dots at its end; where nothing is left, it is an underscore.
pub proof fn law_sanitized_from_its_parts(name: Seq<char>, kept: Seq<char>, ending: Seq<char>)
    requires
        kept.len() > 0 ==> kept.last() != ' ' && kept.last() != '.',
        forall|i: int| 0 <= i < ending.len() ==> #[trigger] ending[i] == ' ' || ending[i] == '.',
        ({
            let reserved = is_reserved(upper_ascii(before_first(replaced(name), '.')));
            kept + ending == (if reserved {
                seq!['_'] + replaced(name)
            } else {
                replaced(name)
            })
        }),
    ensures
        kept.len() > 0 ==> sanitized(name) == kept,
        kept.len() == 0 ==> sanitized(name) == seq!['_'],
{
    let marked = kept + ending;
    assert forall|i: int| marked.len() - ending.len() <= i < marked.len() implies dropped_at_end()(
        #[trigger] marked[i],
    ) by {
        assert(marked[i] == ending[i - kept.len()]);
    }
    if kept.len() > 0 {
        assert(marked[kept.len() - 1] == kept.last());
    }
    lemma_trailing(marked, dropped_at_end(), ending.len() as int);
    assert(marked.take(kept.len() as int) =~= kept);
}

/// A sanitized name is safe.
pub proof fn law_sanitized_is_safe(name: Seq<char>)
    ensures
        is_safe(sanitized(name)),
{
    let r = replaced(name);
    let marked = if names_device(r) {
        seq!['_'] + r
    } else {
        r
    };
    assert forall|i: int| 0 <= i < marked.len() implies !is_invalid(#[trigger] marked[i])
        && !is_control(marked[i]) by {
        if names_device(r) {
            if i > 0 {
                assert(marked[i] == r[i - 1]);
                assert(r[i - 1] == safe_char(name[i - 1]));
            }
        } else {
            assert(r[i] == safe_char(name[i]));
        }
    }
    lemma_trailing_bound(marked, dropped_at_end());
}

/// Sanitizing a safe name that is not reserved changes nothing.
pub proof fn law_safe_names_stay(name: Seq<char>)
    requires
        is_safe(name),
        !names_device(name),
    ensures
        sanitized(name) == name,
{
    assert forall|i: int| 0 <= i < name.len() implies safe_char(name[i]) == name[i] by {
        assert(!is_invalid(name[i]));
    }
    assert(replaced(name) =~= name);
    lemma_trailing(name, dropped_at_end(), 0);
    assert(name.take(name.len() as int) =~= name);
}

/// Whether a name is a reserved one with spaces after it and nothing more but
/// spaces and dots.
pub open spec fn is_padded_device(name: Seq<char>) -> bool {
    let base = before_first(name, '.');
    &&& end_trimmed(base).len() < base.len()
    &&& is_reserved(upper_ascii(end_trimmed(base)))
    &&& forall|i: int| base.len() <= i < name.len() ==> dropped_at_end()(#[trigger] name[i])
}

/// A sanitized name is not reserved, in whatever letter case, unless the name is
/// a reserved one with spaces after it.
pub proof fn law_reserved_names_are_marked(name: Seq<char>)
    requires
        !is_padded_device(replaced(name)),
    ensures
        !names_device(sanitized(name)),
{
    let r = replaced(name);
    let s = sanitized(name);
    lemma_leading_bound(r, other_than('.'));
    lemma_leading_bound(s, other_than('.'));
    if names_device(r) {
        let m = seq!['_'] + r;
        lemma_trailing_bound(m, dropped_at_end());
        assert(m[0] == '_');
        lemma_marked_start(s);
    } else {
        lemma_trailing_bound(r, dropped_at_end());
        let k = r.len() - trailing(r, dropped_at_end());
        if k == 0 {
            lemma_marked_start(s);
        } else {
            assert(s == r.take(k));
            let base = before_first(r, '.');
            let p = base.len() as int;
            if p < k {
                assert forall|i: int| 0 <= i < p implies other_than('.')(#[trigger] s[i]) by {
                    assert(s[i] == r[i]);
                    assert(other_than('.')(r[i]));
                }
                assert(s[p] == r[p]);
                lemma_leading(s, other_than('.'), p);
                assert(before_first(s, '.') =~= base);
            } else {
                assert forall|i: int| 0 <= i < k implies other_than('.')(#[trigger] s[i]) by {
                    assert(s[i] == r[i]);
                    assert(other_than('.')(r[i]));
                }
                lemma_leading(s, other_than('.'), k);
                assert(before_first(s, '.') =~= s);
                if p == k {
                    assert(base =~= s);
                } else {
                    assert forall|i: int| k <= i < p implies dropped_at_end()(
                        #[trigger] base[i],
                    ) by {
                        assert(base[i] == r[i]);
                    }
                    assert(base[k - 1] == r[k - 1]);
                    lemma_trailing(base, dropped_at_end(), p - k);
                    assert(end_trimmed(base) =~= s);
                }
            }
        }
    }
}

/// A name whose part before the first dot does not end with a space is not a
/// reserved one with spaces after it.
pub proof fn law_unpadded_names(name: Seq<char>)
    requires
        before_first(name, '.').len() == 0 || before_first(name, '.').last() != ' ',
    ensures
        !is_padded_device(replaced(name)),
{
    let r = replaced(name);
    lemma_leading_bound(name, other_than('.'));
    let p = leading(name, other_than('.')) as int;
    assert forall|i: int| 0 <= i < p implies other_than('.')(#[trigger] r[i]) by {
        assert(other_than('.')(name[i]));
        assert(r[i] == safe_char(name[i]));
    }
    if p < name.len() {
        assert(r[p] == safe_char(name[p]));
    }
    lemma_leading(r, other_than('.'), p);
    let base = before_first(r, '.');
    if p > 0 {
        assert(base.last() == r[p - 1]);
        assert(r[p - 1] == safe_char(name[p - 1]));
        assert(before_first(name, '.').last() == name[p - 1]);
        assert(other_than('.')(name[p - 1]));
        lemma_trailing(base, dropped_at_end(), 0);
    }
}

/// A name that starts with an underscore is not reserved.
proof fn lemma_marked_start(s: Seq<char>)
    requires
        s.len() > 0,
        s[0] == '_',
    ensures
        !names_device(s),
{
    lemma_leading_bound(s, other_than('.'));
    assert(leading(s, other_than('.')) > 0);
    let b = upper_ascii(before_first(s, '.'));
    assert(b[0] == upper_char('_'));
    lemma_reserved_starts(b);
}

/// Sanitizing twice gives what sanitizing once gives, unless the name is a
/// reserved one with spaces after it.
pub proof fn law_sanitize_twice(name: Seq<char>)
    requires
        !is_padded_device(replaced(name)),
    ensures
        sanitized(sanitized(name)) == sanitized(name),
{
    law_sanitized_is_safe(name);
    law_reserved_names_are_marked(name);
    law_safe_names_stay(sanitized(name));
}

/// No reserved name starts with an underscore.
proof fn lemma_reserved_starts(b: Seq<char>)
    requires
        b.len() > 0,
        b[0] == '_',
    ensures
        !is_reserved(b),
{
    reveal_strlit("CON");
    reveal_strlit("PRN");
    reveal_strlit("AUX");
    reveal_strlit("NUL");
    reveal_strlit("COM1");
    reveal_strlit("COM2");
    reveal_strlit("COM3");
    reveal_strlit("COM4");
    reveal_strlit("COM5");
    reveal_strlit("COM6");
    reveal_strlit("COM7");
    reveal_strlit("COM8");
    reveal_strlit("COM9");
    reveal_strlit("LPT1");
    reveal_strlit("LPT2");
    reveal_strlit("LPT3");
    reveal_strlit("LPT4");
    reveal_strlit("LPT5");
    reveal_strlit("LPT6");
    reveal_strlit("LPT7");
    reveal_strlit("LPT8");
    reveal_strlit("LPT9");
}

fn reserved(base: &str) -> (r: bool)
    ensures
        r == is_reserved(base@),
{
    text_eq(base, "CON") || text_eq(base, "PRN") || text_eq(base, "AUX") || text_eq(base, "NUL")
        || text_eq(base, "COM1") || text_eq(base, "COM2") || text_eq(base, "COM3") || text_eq(
        base,
        "COM4",
    ) || text_eq(base, "COM5") || text_eq(base, "COM6") || text_eq(base, "COM7") || text_eq(
        base,
        "COM8",
    ) || text_eq(base, "COM9") || text_eq(base, "LPT1") || text_eq(base, "LPT2") || text_eq(
        base,
        "LPT3",
    ) || text_eq(base, "LPT4") || text_eq(base, "LPT5") || text_eq(base, "LPT6") || text_eq(
        base,
        "LPT7",
    ) || text_eq(base, "LPT8") || text_eq(base, "LPT9")
}

fn to_safe_char(c: char) -> (r: char)
    ensures
        r == safe_char(c),
{
    let n: u32 = c as u32;
    if c == '<' || c == '>' || c == ':' || c == '"' || c == '/' || c == '\\' || c == '|' || c
        == '?' || c == '*' || n <= 0x1F || (0x7F <= n && n <= 0x9F) {
        '_'
    } else {
        c
    }
}

/// A name with an underscore in the place of every character that no file name
/// may hold.
pub fn replace_unsafe(name: &str) -> (r: String)
    ensures
        r@ == replaced(name@),
{
    let v = chars_of(name);
    let mut out = String::new();
    for i in 0..v.len()
        invariant
            v@ == name@,
            out@ == replaced(name@).take(i as int),
    {
        let c: char = to_safe_char(v[i]);
        out.push(c);
        assert(replaced(name@).take(i + 1) =~= replaced(name@).take(i as int).push(
            safe_char(name@[i as int]),
        ));
    }
    assert(replaced(name@).take(name@.len() as int) =~= replaced(name@));
    out
}

/// Makes a name safe whose unsafe characters are replaced already.
pub fn finish_sanitized(name: &str) -> (r: String)
    ensures
        r@ == finished(name@),
{
    let base = cut_before_first(name, '.');
    let upper = upper_ascii_text(base.as_str());
    let mut marked = String::new();
    if reserved(upper.as_str()) {
        marked.push('_');
        marked.append(name);
        assert(marked@ =~= seq!['_'] + name@);
    } else {
        marked.append(name);
        assert(marked@ =~= name@);
    }
    let v = chars_of(marked.as_str());
    let mut n: usize = v.len();
    while n > 0 && (v[n - 1] == ' ' || v[n - 1] == '.')
        invariant
            n <= v@.len(),
            forall|i: int| n <= i < v@.len() ==> v@[i] == ' ' || v@[i] == '.',
        decreases n,
    {
        n = n - 1;
    }
    proof {
        lemma_trailing(marked@, dropped_at_end(), marked@.len() - n);
    }
    if n == 0 {
        let mut out = String::new();
        out.push('_');
        assert(out@ =~= seq!['_']);
        out
    } else {
        string_of(&v, 0, n)
    }
}

/// Makes a name safe for every file system.
pub fn sanitize_filename(name: &str) -> (r: String)
    ensures
        r@ == sanitized(name@),
        is_safe(r@),
{
    let safe = replace_unsafe(name);
    proof {
        law_sanitized_is_safe(name@);
    }
    finish_sanitized(safe.as_str())
}

// ---------------------------------------------------------------------------
// Telling files apart
// ---------------------------------------------------------------------------

/// What stands after the last slash of a name.
pub open spec fn file_part(name: Seq<char>) -> Seq<char> {
    after_last(name, '/')
}

/// Whether a character separates the components of a path on some platform.
pub open spec fn separates(c: char) -> bool {
    c == '/' || c == '\\'
}

/// Whether a name starts with a drive on platforms that have drives.
pub open spec fn has_drive(name: Seq<char>) -> bool {
    name.len() >= 2 && name[1] == ':' && ('a' <= name[0] <= 'z' || 'A' <= name[0] <= 'Z')
}

/// Whether a name starts with two separators, which some platforms let a host
/// follow.
pub open spec fn has_host(name: Seq<char>) -> bool {
    name.len() >= 2 && separates(name[0]) && separates(name[1])
}

/// Whether a name means the same on every platform: it holds no separator but
/// slashes, starts with no drive and no host, and something other than a dot
/// stands after the last slash.
pub open spec fn is_plain(name: Seq<char>) -> bool {
    &&& !name.contains('\\')
    &&& !has_drive(name)
    &&& !has_host(name)
    &&& name.contains('/') ==> file_part(name).len() > 0 && file_part(name) != "."@
}

/// Whether the last dot of a name stands behind a character of the same
/// component, whatever separates components, and no component follows.
pub open spec fn has_inner_dot(name: Seq<char>) -> bool {
    let d = name.len() - trailing(name, other_than('.')) - 1;
    &&& d >= 1
    &&& !has_host(name)
    &&& !(has_drive(name) && d == 2)
    &&& !separates(name[d - 1])
    &&& d == name.len() - 1 ==> name[d - 1] != '.'
    &&& forall|i: int| d < i < name.len() ==> !separates(#[trigger] name[i])
}

/// Whether a name has the same extension on every platform: it is plain, it has
/// no dot, or a dot inside its last component.
pub open spec fn same_extension(name: Seq<char>) -> bool {
    is_plain(name) || !name.contains('.') || has_inner_dot(name)
}

/// The stem and the extension of a name: what stands before and after the last
/// dot behind its last slash. What starts with its only dot has no extension, nor
/// has the name of the parent directory.
pub open spec fn name_parts(name: Seq<char>) -> Option<(Seq<char>, Seq<char>)> {
    let file = file_part(name);
    let n = trailing(file, other_than('.'));
    if file == ".."@ || n + 1 >= file.len() {
        None
    } else {
        Some((file.take(file.len() - n - 1), after_last(file, '.')))
    }
}

/// Whether `parts` are the stem and the extension of a name that has the same
/// extension on every platform. The stem is that behind the last slash, or what
/// of it stands behind other separators and a drive.
pub open spec fn parts_fit(name: Seq<char>, parts: Option<(Seq<char>, Seq<char>)>) -> bool {
    match (name_parts(name), parts) {
        (None, None) => true,
        (Some((stem, ext)), Some((found, e))) => e == ext && is_stem(name, stem, found),
        _ => false,
    }
}

/// Whether `found` may be found as the stem of a name, where that behind the last
/// slash is `stem`.
pub open spec fn is_stem(name: Seq<char>, stem: Seq<char>, found: Seq<char>) -> bool {
    &&& found.len() > 0
    &&& found.is_suffix_of(stem)
    &&& is_plain(name) ==> found == stem
}

/// A name with a moment put before its extension, given its stem and extension.
pub open spec fn stamped(
    name: Seq<char>,
    parts: Option<(Seq<char>, Seq<char>)>,
    millis: int,
) -> Seq<char> {
    match parts {
        Some((stem, ext)) => stem + "["@ + decimal_int(millis) + "]."@ + ext,
        None => name + "["@ + decimal_int(millis) + "]"@,
    }
}

/// A dot behind a character that neither separates components nor ends a drive
/// starts the extension of a name on every platform, whatever stands before that
/// character, where neither dots nor separators follow.
pub proof fn law_dot_behind_a_character(before: Seq<char>, c: char, ext: Seq<char>)
    requires
        !separates(c) && c != ':',
        ext.len() > 0,
        forall|i: int| 0 <= i < ext.len() ==> #[trigger] ext[i] != '.' && !separates(ext[i]),
        !has_host(before + seq![c, '.'] + ext),
    ensures
        same_extension(before + seq![c, '.'] + ext),
        name_parts(before + seq![c, '.'] + ext) is Some,
        name_parts(before + seq![c, '.'] + ext)->Some_0.1 == ext,
{
    let name = before + seq![c, '.'] + ext;
    let n = ext.len() as int;
    let d = name.len() - n - 1;
    assert(name[d] == '.' && name[d - 1] == c);
    assert forall|i: int| d < i < name.len() implies other_than('.')(#[trigger] name[i])
        && !separates(name[i]) by {
        assert(name[i] == ext[i - d - 1]);
    }
    lemma_trailing(name, other_than('.'), n);
    lemma_trailing_bound(name, other_than('/'));
    let t = trailing(name, other_than('/')) as int;
    if t < name.len() {
        assert(name[name.len() - t - 1] == '/');
    }
    assert(t >= n + 2);
    let file = file_part(name);
    assert forall|i: int| file.len() - n <= i < file.len() implies other_than('.')(
        #[trigger] file[i],
    ) by {
        assert(file[i] == name[name.len() - t + i]);
    }
    assert(file[file.len() - n - 1] == name[d]);
    lemma_trailing(file, other_than('.'), n);
    assert(file.last() == ext.last());
    assert(file != ".."@) by {
        reveal_strlit("..");
        assert(ext[n - 1] != '.');
    }
    assert(after_last(file, '.') =~= ext);
}

/// A name with a moment put into it is another name, and a longer one where it
/// holds no slash.
pub proof fn law_stamp_changes_name(name: Seq<char>, millis: int)
    ensures
        stamped(name, name_parts(name), millis) != name,
        !name.contains('/') ==> stamped(name, name_parts(name), millis).len() > name.len(),
{
    reveal_strlit("[");
    reveal_strlit("].");
    reveal_strlit("]");
    reveal_strlit("-");
    let magnitude = if millis < 0 {
        (-millis) as nat
    } else {
        millis as nat
    };
    lemma_decimal(magnitude);
    let file = file_part(name);
    lemma_trailing_bound(name, other_than('/'));
    lemma_trailing_bound(file, other_than('.'));
    let s = stamped(name, name_parts(name), millis);
    if name.contains('/') {
        if let Some((stem, ext)) = name_parts(name) {
            let digits = decimal_int(millis);
            assert forall|i: int| 0 <= i < s.len() implies #[trigger] s[i] != '/' by {
                let n = stem.len() as int;
                let m = digits.len() as int;
                if i < n {
                    assert(s[i] == stem[i]);
                    assert(stem[i] == file[i]);
                    assert(other_than('/')(name[name.len() - file.len() + i]));
                } else if i == n {
                    assert(s[i] == '[');
                } else if i < n + 1 + m {
                    assert(s[i] == digits[i - n - 1]);
                    if millis >= 0 {
                        assert(crate::text::is_digit(decimal(magnitude)[i - n - 1]));
                    } else if i > n + 1 {
                        assert(crate::text::is_digit(decimal(magnitude)[i - n - 2]));
                    }
                } else if i < n + m + 3 {
                    assert(s[i] == "]."@[i - n - m - 1]);
                } else {
                    let k = i - n - m - 3;
                    assert(s[i] == ext[k]);
                    assert(ext[k] == file[file.len() - ext.len() + k]);
                    assert(other_than('/')(name[name.len() - ext.len() + k]));
                }
            }
        }
    } else {
        assert(file =~= name) by {
            lemma_trailing(name, other_than('/'), name.len() as int);
        }
    }
}

/// A name ends in the extension behind its last dot, unless the dot comes first; a
/// moment goes between the two, in brackets. Without an extension it goes behind the
/// name.
pub proof fn law_moment_before_the_extension(stem: Seq<char>, ext: Seq<char>, millis: int)
    requires
        !stem.contains('/'),
        !ext.contains('/'),
        !ext.contains('.'),
    ensures
        stem.len() > 0 && ext.len() > 0 ==> name_parts(stem + seq!['.'] + ext) == Some((stem, ext))
            && stamped(
            stem + seq!['.'] + ext,
            name_parts(stem + seq!['.'] + ext),
            millis,
        ) == stem + "["@ + decimal_int(millis) + "]."@ + ext,
        name_parts(seq!['.'] + ext) is None,
        name_parts(ext) is None,
        stamped(ext, name_parts(ext), millis) == ext + "["@ + decimal_int(millis) + "]"@,
{
    reveal_strlit("..");
    let name = stem + seq!['.'] + ext;
    lemma_no_slash(name);
    lemma_no_slash(ext);
    lemma_no_slash(seq!['.'] + ext);
    law_after_the_last(stem, '.', ext);
    assert forall|i: int| name.len() - ext.len() <= i < name.len() implies other_than('.')(
        #[trigger] name[i],
    ) by {
        assert(name[i] == ext[i - stem.len() - 1]);
        assert(ext.contains(ext[i - stem.len() - 1]));
    }
    assert(name[stem.len() as int] == '.');
    lemma_trailing(name, other_than('.'), ext.len() as int);
    if stem.len() > 0 && ext.len() > 0 {
        assert(name.take(stem.len() as int) =~= stem);
        assert(name.last() == ext.last());
        assert(ext.contains(ext.last()));
        assert(name != ".."@);
    }
    let hidden = seq!['.'] + ext;
    assert forall|i: int| hidden.len() - ext.len() <= i < hidden.len() implies other_than('.')(
        #[trigger] hidden[i],
    ) by {
        assert(hidden[i] == ext[i - 1]);
        assert(ext.contains(ext[i - 1]));
    }
    lemma_trailing(hidden, other_than('.'), ext.len() as int);
    assert forall|i: int| 0 <= i < ext.len() implies other_than('.')(#[trigger] ext[i]) by {
        assert(ext.contains(ext[i]));
    }
    lemma_trailing(ext, other_than('.'), ext.len() as int);
}

/// A name without a slash is all one component.
proof fn lemma_no_slash(name: Seq<char>)
    requires
        !name.contains('/'),
    ensures
        file_part(name) == name,
{
    law_after_the_last(name, '/', name);
}

/// Whether `kept` holds, in any order, those of `all` that are wanted. A name whose
/// extension depends on the platform is kept at most as often as it is there.
pub open spec fn keeps_wanted(
    kept: Seq<Seq<char>>,
    all: Seq<Seq<char>>,
    wanted: spec_fn(Seq<char>) -> bool,
) -> bool {
    forall|n: Seq<char>|
        {
            let k = #[trigger] kept.to_multiset().count(n);
            &&& k <= all.to_multiset().count(n)
            &&& same_extension(n) ==> k == if wanted(n) {
                all.to_multiset().count(n)
            } else {
                0
            }
        }
}

/// What is kept still holds what is wanted after one more name.
pub(crate) proof fn lemma_keeps_wanted(
    kept: Seq<Seq<char>>,
    all: Seq<Seq<char>>,
    wanted: spec_fn(Seq<char>) -> bool,
    name: Seq<char>,
    keep: bool,
)
    requires
        keeps_wanted(kept, all, wanted),
        same_extension(name) ==> keep == wanted(name),
    ensures
        keeps_wanted(
            if keep {
                kept.push(name)
            } else {
                kept
            },
            all.push(name),
            wanted,
        ),
{
    broadcast use vstd::seq_lib::group_to_multiset_ensures;

    let next = if keep {
        kept.push(name)
    } else {
        kept
    };
    assert forall|n: Seq<char>|
        {
            let k = #[trigger] next.to_multiset().count(n);
            &&& k <= all.push(name).to_multiset().count(n)
            &&& same_extension(n) ==> k == if wanted(n) {
                all.push(name).to_multiset().count(n)
            } else {
                0
            }
        } by {
        let before = kept.to_multiset().count(n);
        assert(next.to_multiset().count(n) == before + if keep && n == name {
            1nat
        } else {
            0nat
        });
        assert(all.push(name).to_multiset().count(n) == all.to_multiset().count(n) + if n == name {
            1nat
        } else {
            0nat
        });
    }
}

/// Nothing is kept of nothing.
pub(crate) proof fn lemma_keeps_none(wanted: spec_fn(Seq<char>) -> bool)
    ensures
        keeps_wanted(Seq::empty(), Seq::empty(), wanted),
{
    broadcast use vstd::seq_lib::group_to_multiset_ensures;

    assert(Seq::<Seq<char>>::empty().to_multiset() =~= vstd::multiset::Multiset::empty());
}

/// The views of an optional pair of texts.
pub open spec fn opt_pair(o: Option<(String, String)>) -> Option<(Seq<char>, Seq<char>)> {
    match o {
        Some(p) => Some((p.0@, p.1@)),
        None => None,
    }
}

/// `std::path::Path::extension`. Where every platform finds the same last
/// component, or at least the same last dot inside it, it is what stands after
/// that dot, unless the dot comes first or the component is the parent directory;
/// there is none without a dot. Of other names nothing is claimed: what
/// separates components, and what comes before them, depends on the platform.
#[verifier::external_body]
fn path_extension(name: &str) -> (r: Option<String>)
    ensures
        same_extension(name@) ==> opt_text(r) == (match name_parts(name@) {
            Some(parts) => Some(parts.1),
            None => None,
        }),
{
    std::path::Path::new(name).extension().map(|e| e.to_str().unwrap_or("").to_string())
}

/// `std::path::Path::file_stem`. Of a plain name that has an extension it is what
/// stands before the last dot of its last component. Where only the extension is
/// the same on every platform, it is the end of that: what stands behind the
/// platform's last separator or its drive.
#[verifier::external_body]
fn path_stem(name: &str) -> (r: Option<String>)
    ensures
        match (name_parts(name@), opt_text(r)) {
            (Some((stem, _)), Some(found)) => same_extension(name@) ==> is_stem(
                name@,
                stem,
                found,
            ),
            (Some(_), None) => !same_extension(name@),
            _ => true,
        },
{
    std::path::Path::new(name).file_stem().map(|s| s.to_str().unwrap_or("").to_string())
}

/// The extension of a file name.
pub fn file_extension(name: &str) -> (r: Option<String>)
    ensures
        same_extension(name@) ==> opt_text(r) == (match name_parts(name@) {
            Some(parts) => Some(parts.1),
            None => None,
        }),
{
    path_extension(name)
}

fn stem_and_extension(name: &str) -> (r: Option<(String, String)>)
    ensures
        same_extension(name@) ==> parts_fit(name@, opt_pair(r)),
{
    match path_extension(name) {
        Some(extension) => {
            let stem = match path_stem(name) {
                Some(stem) => stem,
                None => String::new(),
            };
            Some((stem, extension))
        },
        None => None,
    }
}

/// Puts a moment before the extension of a name, given its stem and extension.
pub fn stamp_name(name: &str, parts: Option<(String, String)>, unix_millis: i64) -> (r: String)
    ensures
        r@ == stamped(name@, opt_pair(parts), unix_millis as int),
{
    let digits = decimal_i64(unix_millis);
    match parts {
        Some((stem, ext)) => {
            let mut out = stem;
            out.append("[");
            out.append(digits.as_str());
            out.append("].");
            out.append(ext.as_str());
            out
        },
        None => {
            let mut out = name.to_owned();
            out.append("[");
            out.append(digits.as_str());
            out.append("]");
            out
        },
    }
}

/// Puts a moment, in milliseconds since the Unix epoch, before the extension of
/// a file name.
pub fn add_unix_millis_to_filename(filename: &str, unix_millis: i64) -> (r: String)
    ensures
        is_plain(filename@) ==> r@ == stamped(
            filename@,
            name_parts(filename@),
            unix_millis as int,
        ),
        exists|parts: Option<(Seq<char>, Seq<char>)>|
            r@ == #[trigger] stamped(filename@, parts, unix_millis as int) && (same_extension(
                filename@,
            ) ==> parts_fit(filename@, parts)),
{
    let parts = stem_and_extension(filename);
    stamp_name(filename, parts, unix_millis)
}

/// The name to use for a file that is created at the moment `unix_millis`,
/// given whether its own name is taken.
pub fn unique_filename_at(taken: bool, filename: &str, unix_millis: i64) -> (r: String)
    ensures
        !taken ==> r@ == filename@,
        taken && is_plain(filename@) ==> r@ == stamped(
            filename@,
            name_parts(filename@),
            unix_millis as int,
        ),
        taken ==> exists|parts: Option<(Seq<char>, Seq<char>)>|
            r@ == #[trigger] stamped(filename@, parts, unix_millis as int) && (same_extension(
                filename@,
            ) ==> parts_fit(filename@, parts)),
{
    if taken {
        add_unix_millis_to_filename(filename, unix_millis)
    } else {
        filename.to_owned()
    }
}

/// The name to use for a file that is created now, given whether its own name is
/// taken.
pub fn ensure_unique_filename(taken: bool, filename: &str) -> (r: String)
    ensures
        !taken ==> r@ == filename@,
        taken ==> exists|parts: Option<(Seq<char>, Seq<char>)>, millis: i64|
            r@ == #[trigger] stamped(filename@, parts, millis as int) && (same_extension(filename@)
                ==> parts_fit(filename@, parts)),
        is_plain(filename@) ==> (r@ == filename@) == !taken,
{
    let now: i64 = to_unix_millis(current_moment());
    let r = unique_filename_at(taken, filename, now);
    proof {
        if taken && is_plain(filename@) {
            law_stamp_changes_name(filename@, now as int);
            assert(r@ == stamped(filename@, name_parts(filename@), now as int));
        }
    }
    r
}

/// A name is made safe: it is not empty, does not end in a space or a dot, and holds
/// nothing that a file system gives a meaning and no control character.
pub proof fn law_sanitize_filename(name: &str, r: String, i: int)
    requires
        call_ensures(sanitize_filename, (name,), r),
        0 <= i < r@.len(),
    ensures
        r@.last() != ' ' && r@.last() != '.',
        !"<>:\"/\\|?*"@.contains(r@[i]),
        32 <= (r@[i] as int) && !(127 <= (r@[i] as int) < 160),
{
    reveal_strlit("<>:\"/\\|?*");
    assert(!is_invalid(r@[i]) && !is_control(r@[i]));
    let bad = "<>:\"/\\|?*"@;
    if bad.contains(r@[i]) {
        let k = choose|k: int| 0 <= k < bad.len() && bad[k] == r@[i];
        assert(bad[0] == '<' && bad[1] == '>' && bad[2] == ':' && bad[3] == '"' && bad[4] == '/'
            && bad[5] == '\\' && bad[6] == '|' && bad[7] == '?' && bad[8] == '*');
    }
}

/// A name that is free is kept; one that is taken gets the moment before its extension.
pub proof fn law_unique_filename(
    taken: bool,
    filename: &str,
    unix_millis: i64,
    r: String,
    stem: Seq<char>,
    ext: Seq<char>,
)
    requires
        call_ensures(unique_filename_at, (taken, filename, unix_millis), r),
        stem.len() > 0,
        ext.len() > 0,
        !stem.contains('/'),
        !ext.contains('/'),
        !ext.contains('.'),
        filename@ == stem + seq!['.'] + ext,
        is_plain(filename@),
    ensures
        !taken ==> r@ == filename@,
        taken ==> r@ == stem + "["@ + decimal_int(unix_millis as int) + "]."@ + ext,
{
    law_moment_before_the_extension(stem, ext, unix_millis as int);
}

} // verus!

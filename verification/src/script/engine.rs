//! Which functions of which scripts run for an event, and what follows from
//! what they answer.

use vstd::prelude::*;
use vstd::string::*;
use super::error::{error_text, ScriptError, ScriptErrorView};
use super::events::{event_named, HookEvent};
use crate::text::{
    all_digits, begins_with, chars_of, decimal, decimal_u64, is_digit, lemma_decimal, opt_text,
};
use crate::text_map::TextMap;

verus! {

// ---------------------------------------------------------------------------
// Callbacks
// ---------------------------------------------------------------------------

/// Whether a text is the name that a function of a script goes by: a fixed
/// beginning, and a number.
pub open spec fn valid_callback_id(id: Seq<char>) -> bool {
    let p = "__callback_"@;
    begins_with(id, p) && id.len() > p.len() && all_digits(id.skip(p.len() as int))
}

/// Every number names a function, behind a fixed beginning, and nothing else does.
pub proof fn law_callbacks_are_numbered(id: Seq<char>, n: nat)
    ensures
        valid_callback_id("__callback_"@ + decimal(n)),
        valid_callback_id(id) <==> exists|digits: Seq<char>|
            digits.len() > 0 && (forall|i: int|
                0 <= i < digits.len() ==> '0' <= #[trigger] digits[i] && digits[i] <= '9') && id
                == #[trigger] ("__callback_"@ + digits),
{
    let p = "__callback_"@;
    lemma_decimal(n);
    let named = p + decimal(n);
    assert(named.take(p.len() as int) =~= p);
    assert(named.skip(p.len() as int) =~= decimal(n));
    if valid_callback_id(id) {
        let digits = id.skip(p.len() as int);
        assert(id =~= id.take(p.len() as int) + digits);
        assert(id == p + digits);
    }
    if exists|digits: Seq<char>|
        digits.len() > 0 && (forall|i: int|
            0 <= i < digits.len() ==> '0' <= #[trigger] digits[i] && digits[i] <= '9') && id
            == #[trigger] ("__callback_"@ + digits) {
        let digits = choose|digits: Seq<char>|
            digits.len() > 0 && (forall|i: int|
                0 <= i < digits.len() ==> '0' <= #[trigger] digits[i] && digits[i] <= '9') && id
                == #[trigger] ("__callback_"@ + digits);
        assert(id.take(p.len() as int) =~= p);
        assert(id.skip(p.len() as int) =~= digits);
    }
}

/// Whether a text is the name that a function of a script goes by.
pub fn is_valid_callback_id(id: &str) -> (r: bool)
    ensures
        r == valid_callback_id(id@),
{
    let v = chars_of(id);
    let p = chars_of("__callback_");
    let n: usize = p.len();
    if v.len() <= n {
        return false;
    }
    for i in 0..n
        invariant
            v@ == id@,
            p@ == "__callback_"@,
            n == p@.len(),
            n < v@.len(),
            forall|k: int| 0 <= k < i ==> v@[k] == p@[k],
    {
        if v[i] != p[i] {
            assert(id@.take(n as int)[i as int] != p@[i as int]);
            return false;
        }
    }
    assert(id@.take(n as int) =~= p@);
    for i in n..v.len()
        invariant
            v@ == id@,
            p@ == "__callback_"@,
            n == p@.len(),
            n < v@.len(),
            begins_with(id@, p@),
            forall|k: int| n <= k < i ==> is_digit(#[trigger] v@[k]),
    {
        if v[i] < '0' || v[i] > '9' {
            assert(id@.skip(n as int)[i - n] == v@[i as int]);
            return false;
        }
    }
    assert forall|k: int| 0 <= k < id@.skip(n as int).len() implies is_digit(
        #[trigger] id@.skip(n as int)[k],
    ) by {
        assert(id@.skip(n as int)[k] == v@[k + n]);
    }
    true
}

/// The JavaScript that calls a function with a context and hands back what it
/// returned and the context.
pub open spec fn callback_source(context: Seq<char>, callback: Seq<char>) -> Seq<char> {
    "(function() {\n                    const ctx = "@ + context
        + ";\n                    const result = "@ + callback
        + "(ctx);\n                    return { result: result, ctx: ctx };\n                })()"@
}

/// The JavaScript that calls a function with a context, given as JSON, and hands
/// back what it returned and the context.
pub fn callback_code(context: &str, callback: &str) -> (r: String)
    ensures
        r@ == callback_source(context@, callback@),
{
    let mut s = "(function() {\n                    const ctx = ".to_owned();
    s.append(context);
    s.append(";\n                    const result = ");
    s.append(callback);
    s.append(
        "(ctx);\n                    return { result: result, ctx: ctx };\n                })()",
    );
    s
}

// ---------------------------------------------------------------------------
// URL filters
// ---------------------------------------------------------------------------

/// Whether a character means something in a regular expression.
pub open spec fn is_meta(c: char) -> bool {
    c == '\\' || c == '.' || c == '+' || c == '*' || c == '?' || c == '(' || c == ')' || c == '|'
        || c == '[' || c == ']' || c == '{' || c == '}' || c == '^' || c == '$' || c == '#' || c
        == '&' || c == '-' || c == '~'
}

/// A text with a backslash before every character that means something in a
/// regular expression.
pub open spec fn escaped(s: Seq<char>) -> Seq<char>
    decreases s.len(),
{
    if s.len() == 0 {
        Seq::empty()
    } else if is_meta(s.last()) {
        escaped(s.drop_last()).push('\\').push(s.last())
    } else {
        escaped(s.drop_last()).push(s.last())
    }
}

/// The most bytes that the compiled program of a pattern may take: one MiB.
pub const REGEX_BYTES: usize = 1_048_576;

/// Whether the `regex` crate takes a pattern with a compiled program of at most
/// `limit` bytes. The bytes of the program depend on the width of a machine word.
pub uninterp spec fn regex_compiles(pattern: Seq<char>, limit: usize, word_bits: nat) -> bool;

/// Whether a regular expression matches somewhere in a text.
pub uninterp spec fn regex_matches(pattern: Seq<char>, text: Seq<char>) -> bool;

/// `regex::escape`: every character that means something in a regular
/// expression gets a backslash before it.
#[verifier::external_body]
fn escape_regex(s: &str) -> (r: String)
    ensures
        r@ == escaped(s@),
{
    regex::escape(s)
}

/// `regex::RegexBuilder::build` with a limit on the bytes of the program: whether
/// the pattern is taken is a function of the pattern, the limit and the width of
/// a machine word.
#[verifier::external_body]
fn compile_regex(pattern: &str, limit: usize) -> (r: bool)
    ensures
        r == regex_compiles(pattern@, limit, usize::BITS as nat),
{
    regex::RegexBuilder::new(pattern).size_limit(limit).build().is_ok()
}

/// `regex::Regex::is_match`, for a pattern that is taken with the given limit:
/// whether it matches is a function of the pattern and the text.
#[verifier::external_body]
fn match_regex(pattern: &str, limit: usize, text: &str) -> (r: Option<bool>)
    ensures
        r == (if regex_compiles(pattern@, limit, usize::BITS as nat) {
            Some(regex_matches(pattern@, text@))
        } else {
            None
        }),
{
    let regex = regex::RegexBuilder::new(pattern).size_limit(limit).build().ok()?;
    Some(regex.is_match(text))
}

/// A pattern that decides for which URLs a function runs.
pub struct UrlFilter {
    pub pattern: String,
    /// The regular expression for the pattern.
    pub regex: String,
}

/// The regular expression for a pattern: the pattern itself, if it looks like
/// one; else one that matches the pattern as it stands.
pub open spec fn filter_regex(pattern: Seq<char>) -> Seq<char> {
    if pattern.contains('*') || pattern.contains('^') || pattern.contains('$') {
        pattern
    } else {
        escaped(pattern)
    }
}

/// Whether a pattern is taken.
pub open spec fn filter_valid(pattern: Seq<char>) -> bool {
    regex_compiles(filter_regex(pattern), REGEX_BYTES, usize::BITS as nat)
}

/// Whether a URL passes a filter with the given pattern.
pub open spec fn filter_passes(pattern: Seq<char>, url: Seq<char>) -> bool {
    filter_valid(pattern) && regex_matches(filter_regex(pattern), url)
}

/// A pattern with a star, a caret or a dollar sign is a regular expression as it
/// stands; any other is a text that is looked for, whatever its characters mean in
/// a regular expression.
pub proof fn law_patterns_are_regexes_or_texts(pattern: Seq<char>, url: Seq<char>, i: int)
    requires
        0 <= i < pattern.len(),
    ensures
        pattern[i] == '*' || pattern[i] == '^' || pattern[i] == '$' ==> filter_regex(pattern)
            == pattern,
        (forall|j: int|
            0 <= j < pattern.len() ==> #[trigger] pattern[j] != '*' && pattern[j] != '^'
                && pattern[j] != '$') ==> filter_regex(pattern) == escaped(pattern),
        filter_passes(pattern, url) <==> regex_compiles(
            filter_regex(pattern),
            1_048_576,
            usize::BITS as nat,
        ) && regex_matches(filter_regex(pattern), url),
        filter_valid(pattern) <==> regex_compiles(
            filter_regex(pattern),
            1_048_576,
            usize::BITS as nat,
        ),
{
    assert(pattern.contains(pattern[i]));
    if forall|j: int|
        0 <= j < pattern.len() ==> #[trigger] pattern[j] != '*' && pattern[j] != '^' && pattern[j]
            != '$' {
        assert(!pattern.contains('*'));
        assert(!pattern.contains('^'));
        assert(!pattern.contains('$'));
    }
}

/// A text is escaped character by character: those that mean something in a
/// regular expression get a backslash, and every other stays as it is.
pub proof fn law_escaped_by_character(a: Seq<char>, b: Seq<char>, c: char)
    ensures
        escaped(a + b) == escaped(a) + escaped(b),
        escaped(seq![c]) == (if "\\.+*?()|[]{}^$#&-~"@.contains(c) {
            seq!['\\', c]
        } else {
            seq![c]
        }),
    decreases b.len(),
{
    reveal_strlit("\\.+*?()|[]{}^$#&-~");
    let metas = "\\.+*?()|[]{}^$#&-~"@;
    assert(metas[0] == '\\' && metas[1] == '.' && metas[2] == '+' && metas[3] == '*' && metas[4]
        == '?' && metas[5] == '(' && metas[6] == ')' && metas[7] == '|' && metas[8] == '['
        && metas[9] == ']' && metas[10] == '{' && metas[11] == '}' && metas[12] == '^' && metas[13]
        == '$' && metas[14] == '#' && metas[15] == '&' && metas[16] == '-' && metas[17] == '~');
    assert(metas.contains(c) <==> is_meta(c));
    let s = seq![c];
    assert(s.drop_last() =~= Seq::empty());
    assert(escaped(s.drop_last()) =~= Seq::empty());
    assert(escaped(s) =~= if is_meta(c) {
        seq!['\\', c]
    } else {
        seq![c]
    });
    if b.len() == 0 {
        assert(a + b =~= a);
        assert(escaped(a) + escaped(b) =~= escaped(a));
    } else {
        assert((a + b).drop_last() =~= a + b.drop_last());
        law_escaped_by_character(a, b.drop_last(), c);
        assert(escaped(a + b) =~= escaped(a) + escaped(b));
    }
}

/// The regular expression for a pattern.
pub fn pattern_regex(pattern: &str) -> (r: String)
    ensures
        r@ == filter_regex(pattern@),
{
    let v = chars_of(pattern);
    for i in 0..v.len()
        invariant
            v@ == pattern@,
            forall|k: int| 0 <= k < i ==> v@[k] != '*' && v@[k] != '^' && v@[k] != '$',
    {
        if v[i] == '*' || v[i] == '^' || v[i] == '$' {
            assert(pattern@.contains(v@[i as int]));
            return pattern.to_owned();
        }
    }
    escape_regex(pattern)
}

impl UrlFilter {
    /// The regular expression of the filter is that of its pattern.
    pub open spec fn wf(&self) -> bool {
        self.regex@ == filter_regex(self.pattern@)
    }

    /// A filter with the given pattern, given whether the pattern is taken.
    pub fn from_outcome(pattern: String, script: &str, valid: bool) -> (r: Result<
        UrlFilter,
        ScriptError,
    >)
        ensures
            match r {
                Ok(f) => valid && f.pattern@ == pattern@ && f.wf(),
                Err(e) => !valid && e@ == (ScriptErrorView::InvalidFilter {
                    script: script@,
                    pattern: pattern@,
                }),
            },
    {
        if valid {
            let regex = pattern_regex(pattern.as_str());
            Ok(UrlFilter { pattern, regex })
        } else {
            Err(ScriptError::InvalidFilter { script: script.to_owned(), pattern })
        }
    }

    /// A filter with the given pattern, if it is taken.
    pub fn new(pattern: String, script: &str) -> (r: Result<UrlFilter, ScriptError>)
        ensures
            match r {
                Ok(f) => filter_valid(pattern@) && f.pattern@ == pattern@ && f.wf(),
                Err(e) => !filter_valid(pattern@) && e@ == (ScriptErrorView::InvalidFilter {
                    script: script@,
                    pattern: pattern@,
                }),
            },
    {
        let regex = pattern_regex(pattern.as_str());
        let valid = compile_regex(regex.as_str(), REGEX_BYTES);
        UrlFilter::from_outcome(pattern, script, valid)
    }

    /// Whether a URL passes the filter.
    pub fn matches(&self, url: &str) -> (r: bool)
        requires
            self.wf(),
        ensures
            r == filter_passes(self.pattern@, url@),
    {
        match match_regex(self.regex.as_str(), REGEX_BYTES, url) {
            Some(found) => found,
            None => false,
        }
    }
}

// ---------------------------------------------------------------------------
// Handlers
// ---------------------------------------------------------------------------

/// A function of a script that listens to an event.
pub struct EventHandler {
    pub callback_id: String,
    pub filter: Option<UrlFilter>,
    /// The file name of the script.
    pub script: String,
}

/// A function of a script that listens to an event, as values.
pub struct HandlerView {
    pub callback_id: Seq<char>,
    pub filter: Option<Seq<char>>,
    pub script: Seq<char>,
}

impl View for EventHandler {
    type V = HandlerView;

    open spec fn view(&self) -> HandlerView {
        HandlerView {
            callback_id: self.callback_id@,
            filter: match self.filter {
                Some(f) => Some(f.pattern@),
                None => None,
            },
            script: self.script@,
        }
    }
}

impl EventHandler {
    /// The filter is well-formed.
    pub open spec fn wf(&self) -> bool {
        self.filter is Some ==> self.filter->0.wf()
    }
}

/// What a script says of a function that listens to an event.
pub struct HandlerData {
    pub callback_id: Option<String>,
    pub filter: Option<String>,
}

/// What a script says of a function, as values.
pub struct HandlerDataView {
    pub callback_id: Option<Seq<char>>,
    pub filter: Option<Seq<char>>,
}

impl View for HandlerData {
    type V = HandlerDataView;

    open spec fn view(&self) -> HandlerDataView {
        HandlerDataView {
            callback_id: opt_text(self.callback_id),
            filter: opt_text(self.filter),
        }
    }
}

/// What a script says of the functions that listen to one event.
pub struct EventHandlers {
    pub event: String,
    pub handlers: Vec<HandlerData>,
}

/// What a script says of the functions that listen to one event, as values.
pub struct EventHandlersView {
    pub event: Seq<char>,
    pub handlers: Seq<HandlerDataView>,
}

/// What is said of several functions.
pub open spec fn data_views(hs: Seq<HandlerData>) -> Seq<HandlerDataView> {
    hs.map_values(|h: HandlerData| h@)
}

impl View for EventHandlers {
    type V = EventHandlersView;

    open spec fn view(&self) -> EventHandlersView {
        EventHandlersView { event: self.event@, handlers: data_views(self.handlers@) }
    }
}

/// What is said of the functions for several events.
pub open spec fn group_views(gs: Seq<EventHandlers>) -> Seq<EventHandlersView> {
    gs.map_values(|g: EventHandlers| g@)
}

/// Why a function cannot be listed, if it cannot.
pub open spec fn handler_error(d: HandlerDataView, shown: Seq<char>) -> Option<ScriptErrorView> {
    if d.callback_id is None {
        Some(ScriptErrorView::InternalError("Missing callbackId"@))
    } else if d.filter is Some && !filter_valid(d.filter->0) {
        Some(ScriptErrorView::InvalidFilter { script: shown, pattern: d.filter->0 })
    } else {
        None
    }
}

/// The function that is listed.
pub open spec fn handler_of(d: HandlerDataView, script: Seq<char>) -> HandlerView {
    HandlerView { callback_id: d.callback_id->0, filter: d.filter, script }
}

/// The list after the functions for one event were put behind it, up to the
/// first that cannot be, and why that cannot.
pub open spec fn listed(
    s: Seq<(HookEvent, HandlerView)>,
    event: HookEvent,
    hs: Seq<HandlerDataView>,
    script: Seq<char>,
    shown: Seq<char>,
) -> (Seq<(HookEvent, HandlerView)>, Option<ScriptErrorView>)
    decreases hs.len(),
{
    if hs.len() == 0 {
        (s, None)
    } else {
        let before = listed(s, event, hs.drop_last(), script, shown);
        if before.1 is Some {
            before
        } else {
            match handler_error(hs.last(), shown) {
                Some(e) => (before.0, Some(e)),
                None => (before.0.push((event, handler_of(hs.last(), script))), None),
            }
        }
    }
}

/// The list after the functions of a script were put behind it, up to the first
/// that cannot be, and why that cannot.
pub open spec fn registered(
    s: Seq<(HookEvent, HandlerView)>,
    gs: Seq<EventHandlersView>,
    script: Seq<char>,
    shown: Seq<char>,
) -> (Seq<(HookEvent, HandlerView)>, Option<ScriptErrorView>)
    decreases gs.len(),
{
    if gs.len() == 0 {
        (s, None)
    } else {
        let before = registered(s, gs.drop_last(), script, shown);
        if before.1 is Some {
            before
        } else {
            match event_named(gs.last().event) {
                Some(event) => listed(before.0, event, gs.last().handlers, script, shown),
                None => (before.0, Some(ScriptErrorView::InvalidEventName(gs.last().event))),
            }
        }
    }
}

/// Whether a function can be registered: it has a name, and its pattern, if it has
/// one, is a regular expression.
pub open spec fn is_complete(d: HandlerDataView) -> bool {
    d.callback_id is Some && (d.filter is Some ==> regex_compiles(
        filter_regex(d.filter->0),
        REGEX_BYTES,
        usize::BITS as nat,
    ))
}

/// The functions of an event are listed one after another behind what is there,
/// under that event and with their script, up to the first that cannot be; that one
/// is the error.
pub proof fn law_functions_are_listed(
    s: Seq<(HookEvent, HandlerView)>,
    event: HookEvent,
    hs: Seq<HandlerDataView>,
    script: Seq<char>,
    shown: Seq<char>,
    k: int,
)
    requires
        0 <= k <= hs.len(),
        forall|i: int| 0 <= i < k ==> is_complete(#[trigger] hs[i]),
        k < hs.len() ==> !is_complete(hs[k]),
    ensures
        ({
            let (r, error) = listed(s, event, hs, script, shown);
            &&& r == s + Seq::new(
                k as nat,
                |i: int|
                    (
                        event,
                        HandlerView {
                            callback_id: hs[i].callback_id->0,
                            filter: hs[i].filter,
                            script,
                        },
                    ),
            )
            &&& error is None <==> k == hs.len()
            &&& k < hs.len() && hs[k].callback_id is None ==> error == Some(
                ScriptErrorView::InternalError("Missing callbackId"@),
            )
            &&& k < hs.len() && hs[k].callback_id is Some ==> error == Some(
                ScriptErrorView::InvalidFilter { script: shown, pattern: hs[k].filter->0 },
            )
        }),
    decreases hs.len(),
{
    let place = |i: int|
        (event, HandlerView { callback_id: hs[i].callback_id->0, filter: hs[i].filter, script });
    if hs.len() == 0 {
        assert(s + Seq::new(0, place) =~= s);
    } else {
        let before = hs.drop_last();
        assert(forall|i: int| 0 <= i < before.len() ==> #[trigger] before[i] == hs[i]);
        let m = if k < hs.len() {
            k
        } else {
            k - 1
        };
        assert forall|i: int| 0 <= i < m implies is_complete(#[trigger] before[i]) by {
            assert(before[i] == hs[i]);
        }
        law_functions_are_listed(s, event, before, script, shown, m);
        let old_place = |i: int|
            (
                event,
                HandlerView {
                    callback_id: before[i].callback_id->0,
                    filter: before[i].filter,
                    script,
                },
            );
        assert(Seq::new(m as nat, old_place) =~= Seq::new(m as nat, place));
        if k == hs.len() {
            assert(is_complete(hs[k - 1]));
            assert((s + Seq::new(m as nat, place)).push(place(k - 1)) =~= s + Seq::new(
                k as nat,
                place,
            ));
        }
    }
}

/// The functions of several events are registered event after event, under the
/// event that each is named after; a name that no event has is the error.
pub proof fn law_events_are_registered(
    s: Seq<(HookEvent, HandlerView)>,
    g: EventHandlersView,
    gs: Seq<EventHandlersView>,
    script: Seq<char>,
    shown: Seq<char>,
)
    ensures
        registered(s, Seq::empty(), script, shown) == (s, None::<ScriptErrorView>),
        event_named(g.event) is Some ==> registered(s, seq![g], script, shown) == listed(
            s,
            event_named(g.event)->0,
            g.handlers,
            script,
            shown,
        ),
        event_named(g.event) is None ==> registered(s, seq![g], script, shown) == (
            s,
            Some(ScriptErrorView::InvalidEventName(g.event)),
        ),
        registered(s, seq![g], script, shown).1 is None ==> registered(
            s,
            seq![g] + gs,
            script,
            shown,
        ) == registered(registered(s, seq![g], script, shown).0, gs, script, shown),
        registered(s, seq![g], script, shown).1 is Some ==> registered(
            s,
            seq![g] + gs,
            script,
            shown,
        ) == registered(s, seq![g], script, shown),
    decreases gs.len(),
{
    let one = seq![g];
    assert(one.drop_last() =~= Seq::empty());
    assert(registered(s, Seq::empty(), script, shown) == (s, None::<ScriptErrorView>));
    if gs.len() == 0 {
        assert(one + gs =~= one);
    } else {
        assert((one + gs).drop_last() =~= one + gs.drop_last());
        law_events_are_registered(s, g, gs.drop_last(), script, shown);
    }
}

/// What follows an error changes nothing.
proof fn lemma_listed_stops(
    s: Seq<(HookEvent, HandlerView)>,
    event: HookEvent,
    hs: Seq<HandlerDataView>,
    script: Seq<char>,
    shown: Seq<char>,
    n: int,
)
    requires
        0 <= n <= hs.len(),
        listed(s, event, hs.take(n), script, shown).1 is Some,
    ensures
        listed(s, event, hs, script, shown) == listed(s, event, hs.take(n), script, shown),
    decreases hs.len(),
{
    if n < hs.len() {
        assert(hs.drop_last().take(n) =~= hs.take(n));
        lemma_listed_stops(s, event, hs.drop_last(), script, shown, n);
    } else {
        assert(hs.take(n) =~= hs);
    }
}

/// What follows an error changes nothing.
proof fn lemma_registered_stops(
    s: Seq<(HookEvent, HandlerView)>,
    gs: Seq<EventHandlersView>,
    script: Seq<char>,
    shown: Seq<char>,
    n: int,
)
    requires
        0 <= n <= gs.len(),
        registered(s, gs.take(n), script, shown).1 is Some,
    ensures
        registered(s, gs, script, shown) == registered(s, gs.take(n), script, shown),
    decreases gs.len(),
{
    if n < gs.len() {
        assert(gs.drop_last().take(n) =~= gs.take(n));
        lemma_registered_stops(s, gs.drop_last(), script, shown, n);
    } else {
        assert(gs.take(n) =~= gs);
    }
}

/// Listing functions keeps what was listed, in front of what is new.
pub proof fn law_listed_handlers_stay(
    s: Seq<(HookEvent, HandlerView)>,
    gs: Seq<EventHandlersView>,
    script: Seq<char>,
    shown: Seq<char>,
)
    ensures
        s.is_prefix_of(registered(s, gs, script, shown).0),
    decreases gs.len(),
{
    if gs.len() > 0 {
        law_listed_handlers_stay(s, gs.drop_last(), script, shown);
        let before = registered(s, gs.drop_last(), script, shown);
        if before.1 is None && event_named(gs.last().event) is Some {
            lemma_listed_extends(
                before.0,
                event_named(gs.last().event)->0,
                gs.last().handlers,
                script,
                shown,
            );
        }
    }
}

/// Listing the functions for one event keeps what was listed.
proof fn lemma_listed_extends(
    s: Seq<(HookEvent, HandlerView)>,
    event: HookEvent,
    hs: Seq<HandlerDataView>,
    script: Seq<char>,
    shown: Seq<char>,
)
    ensures
        s.is_prefix_of(listed(s, event, hs, script, shown).0),
    decreases hs.len(),
{
    if hs.len() > 0 {
        lemma_listed_extends(s, event, hs.drop_last(), script, shown);
    }
}

// ---------------------------------------------------------------------------
// Which functions run
// ---------------------------------------------------------------------------

/// Whether a function runs: its script is not switched off, the URL passes its
/// filter, and it goes by a proper name.
pub open spec fn to_run(
    h: HandlerView,
    scripts: Map<Seq<char>, bool>,
    url: Option<Seq<char>>,
) -> bool {
    &&& scripts.contains_key(h.script) ==> scripts[h.script]
    &&& h.filter is Some && url is Some ==> filter_passes(h.filter->0, url->0)
    &&& valid_callback_id(h.callback_id)
}

/// The first function at or behind place `from` that runs for an event.
pub open spec fn next_from(
    s: Seq<(HookEvent, HandlerView)>,
    event: HookEvent,
    scripts: Map<Seq<char>, bool>,
    url: Option<Seq<char>>,
    from: int,
) -> Option<int>
    decreases s.len() - from,
{
    if from >= s.len() {
        None
    } else if s[from].0 == event && to_run(s[from].1, scripts, url) {
        Some(from)
    } else {
        next_from(s, event, scripts, url, from + 1)
    }
}

/// Functions run in the order in which they are listed: none that should run is
/// passed over, and none runs that should not.
pub proof fn law_runs_in_order(
    s: Seq<(HookEvent, HandlerView)>,
    event: HookEvent,
    scripts: Map<Seq<char>, bool>,
    url: Option<Seq<char>>,
    from: int,
)
    requires
        0 <= from,
    ensures
        match next_from(s, event, scripts, url, from) {
            Some(i) => from <= i < s.len() && s[i].0 == event && to_run(s[i].1, scripts, url)
                && forall|j: int|
                #![trigger s[j]]
                from <= j < i ==> !(s[j].0 == event && to_run(s[j].1, scripts, url)),
            None => forall|j: int|
                #![trigger s[j]]
                from <= j < s.len() ==> !(s[j].0 == event && to_run(s[j].1, scripts, url)),
        },
    decreases s.len() - from,
{
    if from < s.len() && !(s[from].0 == event && to_run(s[from].1, scripts, url)) {
        law_runs_in_order(s, event, scripts, url, from + 1);
    }
}

/// A function runs exactly if nobody has switched its script off, its pattern fits
/// the URL, where there are both, and its name is one that the runtime gives.
pub proof fn law_who_runs(h: HandlerView, scripts: Map<Seq<char>, bool>, url: Option<Seq<char>>)
    ensures
        to_run(h, scripts, url) <==> {
            &&& !(scripts.contains_key(h.script) && !scripts[h.script])
            &&& h.filter is None || url is None || (regex_compiles(
                filter_regex(h.filter->0),
                REGEX_BYTES,
                usize::BITS as nat,
            ) && regex_matches(filter_regex(h.filter->0), url->0))
            &&& valid_callback_id(h.callback_id)
        },
{
}

/// A script that is switched off does not run; one that nothing is said of does.
pub proof fn law_scripts_are_on_by_default(
    h: HandlerView,
    scripts: Map<Seq<char>, bool>,
    url: Option<Seq<char>>,
)
    ensures
        scripts.contains_key(h.script) && !scripts[h.script] ==> !to_run(h, scripts, url),
        !scripts.contains_key(h.script) && h.filter is None && valid_callback_id(h.callback_id)
            ==> to_run(h, scripts, url),
{
}

/// What became of a context that a function has handled.
pub enum ContextUpdate {
    /// The function handed none back.
    Absent,
    /// It is the context from now on.
    Applied,
    /// What the function handed back is no such context.
    Unusable(String),
}

/// What became of the call of a function.
pub enum HandlerOutcome {
    /// The function failed, or ran too long.
    Threw,
    /// What it handed back could not be read.
    Unreadable,
    /// The function returned, perhaps a truth value.
    Returned { context: ContextUpdate, result: Option<bool> },
}

/// What follows the call of a function.
#[derive(Debug)]
pub enum Flow {
    /// The next function runs.
    Continue,
    /// No other function runs.
    Stop,
    /// No other function runs, and the event has failed.
    Fail(ScriptError),
}

/// Whether a flow is what follows the call of a function. A function that failed
/// is passed over; one that returns `false` is the last, and what it did to the
/// context stands.
pub open spec fn flow_of(outcome: HandlerOutcome, flow: Flow) -> bool {
    match outcome {
        HandlerOutcome::Threw => flow is Continue,
        HandlerOutcome::Unreadable => flow is Continue,
        HandlerOutcome::Returned { context: ContextUpdate::Unusable(m), result } => flow is Fail
            && flow->Fail_0@ == ScriptErrorView::SerializationError(m@),
        HandlerOutcome::Returned { context, result } => if result == Some(false) {
            flow is Stop
        } else {
            flow is Continue
        },
    }
}

/// Only a function that returned `false` stops the others, and only a context that
/// cannot be used is a failure; a function that failed itself stops nobody.
pub proof fn law_only_false_stops(outcome: HandlerOutcome, flow: Flow)
    requires
        flow_of(outcome, flow),
    ensures
        flow is Stop <==> outcome is Returned && outcome->result == Some(false) && !(
        outcome->context is Unusable),
        flow is Fail <==> outcome is Returned && outcome->context is Unusable,
        flow is Fail ==> flow->Fail_0@ == ScriptErrorView::SerializationError(
            outcome->context->Unusable_0@,
        ),
        outcome is Threw || outcome is Unreadable ==> flow is Continue,
{
}

/// What follows the call of a function.
pub fn settle(outcome: HandlerOutcome) -> (r: Flow)
    ensures
        flow_of(outcome, r),
{
    match outcome {
        HandlerOutcome::Threw => Flow::Continue,
        HandlerOutcome::Unreadable => Flow::Continue,
        HandlerOutcome::Returned { context, result } => match context {
            ContextUpdate::Unusable(m) => Flow::Fail(ScriptError::SerializationError(m)),
            _ => match result {
                Some(false) => Flow::Stop,
                _ => Flow::Continue,
            },
        },
    }
}

// ---------------------------------------------------------------------------
// The engine's list
// ---------------------------------------------------------------------------

/// The functions of all scripts that listen to events.
pub struct HandlerRegistry {
    handlers: Vec<(HookEvent, EventHandler)>,
}

/// The listed functions.
pub open spec fn handler_views(hs: Seq<(HookEvent, EventHandler)>) -> Seq<
    (HookEvent, HandlerView),
> {
    hs.map_values(|h: (HookEvent, EventHandler)| (h.0, h.1@))
}

impl View for HandlerRegistry {
    type V = Seq<(HookEvent, HandlerView)>;

    closed spec fn view(&self) -> Seq<(HookEvent, HandlerView)> {
        handler_views(self.handlers@)
    }
}

/// The functions that listen to one event.
pub open spec fn handlers_for(s: Seq<(HookEvent, HandlerView)>, event: HookEvent) -> Seq<
    HandlerView,
>
    decreases s.len(),
{
    if s.len() == 0 {
        Seq::empty()
    } else if s.last().0 == event {
        handlers_for(s.drop_last(), event).push(s.last().1)
    } else {
        handlers_for(s.drop_last(), event)
    }
}

/// The functions of an event are those that are registered for it, in the order in
/// which they were.
pub proof fn law_functions_of_an_event(s: Seq<(HookEvent, HandlerView)>, event: HookEvent)
    ensures
        handlers_for(s, event) == s.filter(|p: (HookEvent, HandlerView)| p.0 == event).map_values(
            |p: (HookEvent, HandlerView)| p.1,
        ),
    decreases s.len(),
{
    reveal(Seq::filter);
    let of = |p: (HookEvent, HandlerView)| p.0 == event;
    let what = |p: (HookEvent, HandlerView)| p.1;
    if s.len() > 0 {
        law_functions_of_an_event(s.drop_last(), event);
        let before = s.drop_last().filter(of);
        if of(s.last()) {
            assert(before.push(s.last()).map_values(what) =~= before.map_values(what).push(
                what(s.last()),
            ));
        }
    } else {
        assert(s.filter(of).map_values(what) =~= Seq::empty());
    }
}

impl HandlerRegistry {
    /// The filters are well-formed.
    pub closed spec fn wf(&self) -> bool {
        forall|i: int| 0 <= i < self.handlers@.len() ==> (#[trigger] self.handlers@[i]).1.wf()
    }

    /// An empty list.
    pub fn new() -> (r: HandlerRegistry)
        ensures
            r@ == Seq::<(HookEvent, HandlerView)>::empty(),
            r.wf(),
    {
        let r = HandlerRegistry { handlers: Vec::new() };
        assert(r@ =~= Seq::<(HookEvent, HandlerView)>::empty());
        r
    }

    /// Forgets all functions.
    pub fn clear_handlers(&mut self)
        ensures
            final(self)@ == Seq::<(HookEvent, HandlerView)>::empty(),
            final(self).wf(),
    {
        self.handlers = Vec::new();
        assert(self@ =~= Seq::<(HookEvent, HandlerView)>::empty());
    }

    fn register_group(
        &mut self,
        event: HookEvent,
        handlers: &Vec<HandlerData>,
        script: &str,
        shown: &str,
    ) -> (r: Result<(), ScriptError>)
        requires
            old(self).wf(),
        ensures
            final(self).wf(),
            final(self)@ == listed(
                old(self)@,
                event,
                data_views(handlers@),
                script@,
                shown@,
            ).0,
            match listed(old(self)@, event, data_views(handlers@), script@, shown@).1 {
                Some(e) => r is Err && r->Err_0@ == e,
                None => r is Ok,
            },
    {
        let ghost hs = data_views(handlers@);
        let ghost start = self@;
        assert(hs.take(0) =~= Seq::<HandlerDataView>::empty());
        for i in 0..handlers.len()
            invariant
                hs == data_views(handlers@),
                start == old(self)@,
                self.wf(),
                listed(start, event, hs.take(i as int), script@, shown@) == (
                    self@,
                    None::<ScriptErrorView>,
                ),
        {
            let ghost before = self.handlers@;
            proof {
                assert(hs.take(i + 1).drop_last() =~= hs.take(i as int));
                assert(hs.take(i + 1).last() == handlers@[i as int]@);
            }
            let callback_id = match &handlers[i].callback_id {
                Some(c) => c.clone(),
                None => {
                    proof {
                        lemma_listed_stops(start, event, hs, script@, shown@, i + 1);
                    }
                    return Err(ScriptError::InternalError("Missing callbackId".to_owned()));
                },
            };
            let filter = match &handlers[i].filter {
                Some(p) => match UrlFilter::new(p.clone(), shown) {
                    Ok(f) => Some(f),
                    Err(e) => {
                        proof {
                            lemma_listed_stops(start, event, hs, script@, shown@, i + 1);
                        }
                        return Err(e);
                    },
                },
                None => None,
            };
            let handler = EventHandler { callback_id, filter, script: script.to_owned() };
            assert(handler@ == handler_of(hs[i as int], script@));
            self.handlers.push((event, handler));
            proof {
                assert(self@ =~= handler_views(before).push((event, handler@)));
                assert forall|k: int| 0 <= k < self.handlers@.len() implies (
                #[trigger] self.handlers@[k]).1.wf() by {
                    if k < before.len() {
                        assert(self.handlers@[k] == before[k]);
                    }
                }
            }
        }
        assert(hs.take(hs.len() as int) =~= hs);
        Ok(())
    }

    /// Lists the functions of a script, which is shown as `shown` and whose file
    /// name is `script`, behind all others, up to the first that cannot be
    /// listed.
    pub fn register(&mut self, groups: &Vec<EventHandlers>, script: &str, shown: &str) -> (r: Result<
        (),
        ScriptError,
    >)
        requires
            old(self).wf(),
        ensures
            final(self).wf(),
            final(self)@ == registered(old(self)@, group_views(groups@), script@, shown@).0,
            match registered(old(self)@, group_views(groups@), script@, shown@).1 {
                Some(e) => r is Err && r->Err_0@ == e,
                None => r is Ok,
            },
    {
        let ghost gs = group_views(groups@);
        let ghost start = self@;
        assert(gs.take(0) =~= Seq::<EventHandlersView>::empty());
        for i in 0..groups.len()
            invariant
                gs == group_views(groups@),
                start == old(self)@,
                self.wf(),
                registered(start, gs.take(i as int), script@, shown@) == (
                    self@,
                    None::<ScriptErrorView>,
                ),
        {
            proof {
                assert(gs.take(i + 1).drop_last() =~= gs.take(i as int));
                assert(gs.take(i + 1).last() == groups@[i as int]@);
            }
            let event = match HookEvent::from_str(groups[i].event.as_str()) {
                Some(e) => e,
                None => {
                    proof {
                        lemma_registered_stops(start, gs, script@, shown@, i + 1);
                    }
                    return Err(ScriptError::InvalidEventName(groups[i].event.clone()));
                },
            };
            match self.register_group(event, &groups[i].handlers, script, shown) {
                Ok(()) => {},
                Err(e) => {
                    proof {
                        lemma_registered_stops(start, gs, script@, shown@, i + 1);
                    }
                    return Err(e);
                },
            }
        }
        assert(gs.take(gs.len() as int) =~= gs);
        Ok(())
    }

    /// How many functions are listed.
    pub fn len(&self) -> (r: usize)
        ensures
            r == self@.len(),
    {
        self.handlers.len()
    }

    /// How many functions listen to an event.
    pub fn handler_count(&self, event: HookEvent) -> (r: usize)
        ensures
            r == handlers_for(self@, event).len(),
    {
        let ghost s = handler_views(self.handlers@);
        let mut n: usize = 0;
        for i in 0..self.handlers.len()
            invariant
                s == handler_views(self.handlers@),
                n == handlers_for(s.take(i as int), event).len(),
                n <= i,
        {
            assert(s.take(i + 1).drop_last() =~= s.take(i as int));
            if self.handlers[i].0 == event {
                n = n + 1;
            }
        }
        assert(s.take(s.len() as int) =~= s);
        n
    }

    /// The place of the first function at or behind place `from` that runs for
    /// an event, given which scripts are switched on and off, and the URL.
    pub fn next_handler(
        &self,
        event: HookEvent,
        scripts: &TextMap<bool>,
        url: Option<&str>,
        from: usize,
    ) -> (r: Option<usize>)
        requires
            self.wf(),
        ensures
            match r {
                Some(i) => next_from(
                    self@,
                    event,
                    scripts@,
                    match url {
                        Some(u) => Some(u@),
                        None => None,
                    },
                    from as int,
                ) == Some(i as int) && i < self@.len(),
                None => next_from(
                    self@,
                    event,
                    scripts@,
                    match url {
                        Some(u) => Some(u@),
                        None => None,
                    },
                    from as int,
                ) is None,
            },
    {
        let ghost s = handler_views(self.handlers@);
        let ghost u = match url {
            Some(u) => Some(u@),
            None => None,
        };
        let n: usize = self.handlers.len();
        let mut i: usize = from;
        while i < n
            invariant
                s == handler_views(self.handlers@),
                n == s.len(),
                self.wf(),
                from <= i,
                u == (match url {
                    Some(u) => Some(u@),
                    None => None,
                }),
                next_from(s, event, scripts@, u, from as int) == next_from(
                    s,
                    event,
                    scripts@,
                    u,
                    i as int,
                ),
            decreases n - i,
        {
            let handler = &self.handlers[i];
            assert(s[i as int] == (handler.0, handler.1@));
            if handler.0 == event {
                let enabled = match scripts.get(handler.1.script.as_str()) {
                    Some(b) => *b,
                    None => true,
                };
                let passes = match (&handler.1.filter, url) {
                    (Some(f), Some(u)) => f.matches(u),
                    _ => true,
                };
                if enabled && passes && is_valid_callback_id(handler.1.callback_id.as_str()) {
                    return Some(i);
                }
            }
            i = i + 1;
        }
        None
    }

    /// The function at place `i`.
    pub fn handler_at(&self, i: usize) -> (r: &EventHandler)
        requires
            i < self@.len(),
        ensures
            r@ == self@[i as int].1,
    {
        &self.handlers[i].1
    }
}

// ---------------------------------------------------------------------------
// One event
// ---------------------------------------------------------------------------

/// An event that is handed to the functions that listen to it, one after
/// another.
#[derive(Debug, Clone, Copy, PartialEq, Eq, Structural)]
pub struct Dispatch {
    pub event: HookEvent,
    /// The functions before this place had their turn.
    pub at: usize,
    /// No other function runs.
    pub over: bool,
}

/// An event after its next function was picked, and the place of that function.
pub open spec fn dispatched(
    d: Dispatch,
    s: Seq<(HookEvent, HandlerView)>,
    scripts: Map<Seq<char>, bool>,
    url: Option<Seq<char>>,
) -> (Dispatch, Option<int>) {
    let next = next_from(s, d.event, scripts, url, d.at as int);
    if d.over || next is None {
        (Dispatch { over: true, ..d }, None)
    } else {
        (Dispatch { at: (next->0 + 1) as usize, ..d }, next)
    }
}

/// The next turn goes to the first function from where the event stands that listens
/// to the event and may run; the event then stands behind it. Where there is none,
/// the event is over.
pub proof fn law_next_turn(
    d: Dispatch,
    s: Seq<(HookEvent, HandlerView)>,
    scripts: Map<Seq<char>, bool>,
    url: Option<Seq<char>>,
    i: int,
)
    requires
        s.len() < usize::MAX,
        !d.over,
        d.at <= i <= s.len(),
        forall|j: int|
            #![trigger s[j]]
            d.at <= j < i ==> !(s[j].0 == d.event && to_run(s[j].1, scripts, url)),
        i < s.len() ==> s[i].0 == d.event && to_run(s[i].1, scripts, url),
    ensures
        i < s.len() ==> dispatched(d, s, scripts, url) == (
            Dispatch { event: d.event, at: (i + 1) as usize, over: false },
            Some(i),
        ),
        i == s.len() ==> dispatched(d, s, scripts, url) == (
            Dispatch { event: d.event, at: d.at, over: true },
            None::<int>,
        ),
{
    law_runs_in_order(s, d.event, scripts, url, d.at as int);
}

/// Every function has at most one turn, and they come in the order of the list:
/// what is picked stands behind all that were picked before.
pub proof fn law_one_turn_each(
    d: Dispatch,
    s: Seq<(HookEvent, HandlerView)>,
    scripts: Map<Seq<char>, bool>,
    url: Option<Seq<char>>,
    later_url: Option<Seq<char>>,
)
    requires
        s.len() <= usize::MAX,
        dispatched(d, s, scripts, url).1 is Some,
        dispatched(dispatched(d, s, scripts, url).0, s, scripts, later_url).1 is Some,
    ensures
        dispatched(d, s, scripts, url).1->0 < dispatched(
            dispatched(d, s, scripts, url).0,
            s,
            scripts,
            later_url,
        ).1->0,
{
    law_runs_in_order(s, d.event, scripts, url, d.at as int);
    let e = dispatched(d, s, scripts, url).0;
    law_runs_in_order(s, d.event, scripts, later_url, e.at as int);
}

/// No function runs after one has stopped the event.
pub proof fn law_nothing_runs_after_a_stop(
    d: Dispatch,
    s: Seq<(HookEvent, HandlerView)>,
    scripts: Map<Seq<char>, bool>,
    url: Option<Seq<char>>,
)
    requires
        d.over,
    ensures
        dispatched(d, s, scripts, url) == (d, None::<int>),
{
}

impl Dispatch {
    /// An event that no function has had a turn for.
    pub fn begin(event: HookEvent) -> (r: Dispatch)
        ensures
            r == (Dispatch { event, at: 0, over: false }),
    {
        Dispatch { event, at: 0, over: false }
    }

    /// Picks the next function, given which scripts are switched on and off and
    /// the URL of the context as it is now. None is left where there is none.
    pub fn next(
        &mut self,
        registry: &HandlerRegistry,
        scripts: &TextMap<bool>,
        url: Option<&str>,
    ) -> (r: Option<usize>)
        requires
            registry.wf(),
        ensures
            ({
                let u = match url {
                    Some(u) => Some(u@),
                    None => None,
                };
                let d = dispatched(*old(self), registry@, scripts@, u);
                &&& *final(self) == d.0
                &&& match r {
                    Some(i) => d.1 == Some(i as int) && i < registry@.len(),
                    None => d.1 is None,
                }
            }),
    {
        if self.over {
            return None;
        }
        let found = registry.next_handler(self.event, scripts, url, self.at);
        match found {
            Some(i) => {
                let n: usize = registry.len();
                assert(i < n);
                self.at = i + 1;
            },
            None => {
                self.over = true;
            },
        }
        found
    }

    /// Takes in what became of the call of a function.
    pub fn settle(&mut self, outcome: HandlerOutcome) -> (r: Flow)
        ensures
            flow_of(outcome, r),
            *final(self) == (Dispatch { over: old(self).over || !(r is Continue), ..*old(self) }),
    {
        let flow = settle(outcome);
        match flow {
            Flow::Continue => {},
            _ => {
                self.over = true;
            },
        }
        flow
    }
}

// ---------------------------------------------------------------------------
// Running and loading scripts
// ---------------------------------------------------------------------------

/// The largest script that is loaded, in bytes.
pub const MAX_SCRIPT_BYTES: u64 = 1_048_576;

/// Why a piece of JavaScript failed: it ran too long, or it failed by itself.
pub fn execution_error(
    name: &str,
    timed_out: bool,
    timeout_ms: u64,
    message: String,
) -> (r: ScriptError)
    ensures
        r@ == (if timed_out {
            ScriptErrorView::Timeout { script: name@, timeout_ms }
        } else {
            ScriptErrorView::ExecutionError { script: name@, message: message@ }
        }),
{
    if timed_out {
        ScriptError::Timeout { script: name.to_owned(), timeout_ms }
    } else {
        ScriptError::ExecutionError { script: name.to_owned(), message }
    }
}

/// What happened while a script is loaded.
pub enum LoadEvent {
    /// The size of the file, if it is known.
    Sized(Option<u64>),
    /// The file was read.
    Content(String),
    /// The file could not be read.
    ReadFailed(String),
    /// The script has run.
    Executed,
    /// The script has failed.
    ExecutionFailed(ScriptError),
    /// The functions that the script has named are these.
    Listed(Vec<EventHandlers>),
    /// The functions could not be asked for.
    ListFailed(ScriptError),
    /// The functions could not be taken out of the runtime.
    ListUnreadable(String),
    /// The functions could not be made out.
    ListUnparsable(String),
    /// The runtime has forgotten the list.
    Cleared,
    /// The runtime could not forget the list.
    ClearFailed(ScriptError),
}

/// What happened while a script is loaded, as values.
pub enum LoadEventView {
    Sized(Option<u64>),
    Content(Seq<char>),
    ReadFailed(Seq<char>),
    Executed,
    ExecutionFailed(ScriptErrorView),
    Listed(Seq<EventHandlersView>),
    ListFailed(ScriptErrorView),
    ListUnreadable(Seq<char>),
    ListUnparsable(Seq<char>),
    Cleared,
    ClearFailed(ScriptErrorView),
}

impl View for LoadEvent {
    type V = LoadEventView;

    open spec fn view(&self) -> LoadEventView {
        match self {
            LoadEvent::Sized(n) => LoadEventView::Sized(*n),
            LoadEvent::Content(s) => LoadEventView::Content(s@),
            LoadEvent::ReadFailed(s) => LoadEventView::ReadFailed(s@),
            LoadEvent::Executed => LoadEventView::Executed,
            LoadEvent::ExecutionFailed(e) => LoadEventView::ExecutionFailed(e@),
            LoadEvent::Listed(gs) => LoadEventView::Listed(group_views(gs@)),
            LoadEvent::ListFailed(e) => LoadEventView::ListFailed(e@),
            LoadEvent::ListUnreadable(s) => LoadEventView::ListUnreadable(s@),
            LoadEvent::ListUnparsable(s) => LoadEventView::ListUnparsable(s@),
            LoadEvent::Cleared => LoadEventView::Cleared,
            LoadEvent::ClearFailed(e) => LoadEventView::ClearFailed(e@),
        }
    }
}

/// What is to be done next to load a script.
#[derive(Debug)]
pub enum LoadAction {
    /// Read the file.
    Read,
    /// Run the script.
    Execute(String),
    /// Ask the runtime for the functions that the script has named.
    List,
    /// Let the runtime forget the list.
    Clear,
    /// The script is loaded.
    Done,
    /// The script is not loaded.
    Fail(ScriptError),
}

/// What is to be done next to load a script, as values.
pub enum LoadActionView {
    Read,
    Execute(Seq<char>),
    List,
    Clear,
    Done,
    Fail(ScriptErrorView),
}

impl View for LoadAction {
    type V = LoadActionView;

    open spec fn view(&self) -> LoadActionView {
        match self {
            LoadAction::Read => LoadActionView::Read,
            LoadAction::Execute(s) => LoadActionView::Execute(s@),
            LoadAction::List => LoadActionView::List,
            LoadAction::Clear => LoadActionView::Clear,
            LoadAction::Done => LoadActionView::Done,
            LoadAction::Fail(e) => LoadActionView::Fail(e@),
        }
    }
}

/// What follows an event while the script that is shown as `shown` is loaded.
pub open spec fn load_step(
    s: Seq<(HookEvent, HandlerView)>,
    event: LoadEventView,
    script: Seq<char>,
    shown: Seq<char>,
) -> (Seq<(HookEvent, HandlerView)>, LoadActionView) {
    match event {
        LoadEventView::Sized(n) => if n is Some && n->0 > MAX_SCRIPT_BYTES {
            (
                s,
                LoadActionView::Fail(
                    ScriptErrorView::CompilationError {
                        path: shown,
                        message: "Script exceeds the "@ + decimal(MAX_SCRIPT_BYTES as nat)
                            + " byte size limit ("@ + decimal(n->0 as nat) + " bytes)"@,
                    },
                ),
            )
        } else {
            (s, LoadActionView::Read)
        },
        LoadEventView::Content(c) => (s, LoadActionView::Execute(c)),
        LoadEventView::ReadFailed(m) => (
            s,
            LoadActionView::Fail(ScriptErrorView::FileReadError { path: shown, source: m }),
        ),
        LoadEventView::Executed => (s, LoadActionView::List),
        LoadEventView::ExecutionFailed(e) => (
            s,
            LoadActionView::Fail(
                ScriptErrorView::CompilationError { path: shown, message: error_text(e) },
            ),
        ),
        LoadEventView::Listed(gs) => {
            let done = registered(s, gs, script, shown);
            (
                done.0,
                match done.1 {
                    Some(e) => LoadActionView::Fail(e),
                    None => LoadActionView::Clear,
                },
            )
        },
        LoadEventView::ListFailed(e) => (
            s,
            LoadActionView::Fail(
                ScriptErrorView::InternalError("Failed to get handlers: "@ + error_text(e)),
            ),
        ),
        LoadEventView::ListUnreadable(m) => (
            s,
            LoadActionView::Fail(ScriptErrorView::InternalError("V8 deserialization error: "@ + m)),
        ),
        LoadEventView::ListUnparsable(m) => (
            s,
            LoadActionView::Fail(ScriptErrorView::InternalError("Failed to parse handlers: "@ + m)),
        ),
        LoadEventView::Cleared => (s, LoadActionView::Done),
        LoadEventView::ClearFailed(e) => (
            s,
            LoadActionView::Fail(
                ScriptErrorView::InternalError("Failed to clear handlers map: "@ + error_text(e)),
            ),
        ),
    }
}

/// A script is loaded step by step: it is read unless it is known to be larger than
/// a mebibyte, run as it was read, asked for its functions, which are registered,
/// and then forgotten by the list. Until then nothing is registered, and every
/// failure ends the loading.
pub proof fn law_loading_step_by_step(
    s: Seq<(HookEvent, HandlerView)>,
    event: LoadEventView,
    script: Seq<char>,
    shown: Seq<char>,
)
    ensures
        ({
            let (r, action) = load_step(s, event, script, shown);
            &&& !(event is Listed) ==> r == s
            &&& event is Sized ==> (action is Read <==> event->Sized_0 is None || event->Sized_0->0
                <= 1_048_576)
            &&& event is Sized && !(action is Read) ==> action == LoadActionView::Fail(
                ScriptErrorView::CompilationError {
                    path: shown,
                    message: "Script exceeds the "@ + decimal(1_048_576) + " byte size limit ("@
                        + decimal(event->Sized_0->0 as nat) + " bytes)"@,
                },
            )
            &&& event is Content ==> action == LoadActionView::Execute(event->Content_0)
            &&& event is Executed ==> action is List
            &&& event is Listed ==> r == registered(s, event->Listed_0, script, shown).0
            &&& event is Listed && registered(s, event->Listed_0, script, shown).1 is None
                ==> action is Clear
            &&& event is Listed && registered(s, event->Listed_0, script, shown).1 is Some
                ==> action == LoadActionView::Fail(
                registered(s, event->Listed_0, script, shown).1->0,
            )
            &&& event is Cleared ==> action is Done
            &&& event is ReadFailed ==> action == LoadActionView::Fail(
                ScriptErrorView::FileReadError { path: shown, source: event->ReadFailed_0 },
            )
            &&& event is ExecutionFailed ==> action == LoadActionView::Fail(
                ScriptErrorView::CompilationError {
                    path: shown,
                    message: error_text(event->ExecutionFailed_0),
                },
            )
            &&& event is ListFailed ==> action == LoadActionView::Fail(
                ScriptErrorView::InternalError(
                    "Failed to get handlers: "@ + error_text(event->ListFailed_0),
                ),
            )
            &&& event is ListUnreadable ==> action == LoadActionView::Fail(
                ScriptErrorView::InternalError(
                    "V8 deserialization error: "@ + event->ListUnreadable_0,
                ),
            )
            &&& event is ListUnparsable ==> action == LoadActionView::Fail(
                ScriptErrorView::InternalError(
                    "Failed to parse handlers: "@ + event->ListUnparsable_0,
                ),
            )
            &&& event is ClearFailed ==> action == LoadActionView::Fail(
                ScriptErrorView::InternalError(
                    "Failed to clear handlers map: "@ + error_text(event->ClearFailed_0),
                ),
            )
        }),
{
}

/// A script that is too large is neither read nor run.
pub proof fn law_large_scripts_are_refused(
    s: Seq<(HookEvent, HandlerView)>,
    size: u64,
    script: Seq<char>,
    shown: Seq<char>,
)
    requires
        size > MAX_SCRIPT_BYTES,
    ensures
        load_step(s, LoadEventView::Sized(Some(size)), script, shown).0 == s,
        load_step(s, LoadEventView::Sized(Some(size)), script, shown).1 is Fail,
{
}

fn prefixed(prefix: &str, text: &str) -> (r: String)
    ensures
        r@ == prefix@ + text@,
{
    let mut s = prefix.to_owned();
    s.append(text);
    s
}

impl HandlerRegistry {
    /// Decides what is to be done next to load the script that is shown as
    /// `shown` and whose file name is `script`. Loading starts with the size of
    /// the file.
    pub fn load_script(&mut self, event: LoadEvent, script: &str, shown: &str) -> (r: LoadAction)
        requires
            old(self).wf(),
        ensures
            final(self).wf(),
            final(self)@ == load_step(old(self)@, event@, script@, shown@).0,
            r@ == load_step(old(self)@, event@, script@, shown@).1,
    {
        match event {
            LoadEvent::Sized(size) => {
                if let Some(n) = size {
                    if n > MAX_SCRIPT_BYTES {
                        let mut message = "Script exceeds the ".to_owned();
                        message.append(decimal_u64(MAX_SCRIPT_BYTES).as_str());
                        message.append(" byte size limit (");
                        message.append(decimal_u64(n).as_str());
                        message.append(" bytes)");
                        return LoadAction::Fail(
                            ScriptError::CompilationError { path: shown.to_owned(), message },
                        );
                    }
                }
                LoadAction::Read
            },
            LoadEvent::Content(c) => LoadAction::Execute(c),
            LoadEvent::ReadFailed(m) => LoadAction::Fail(
                ScriptError::FileReadError { path: shown.to_owned(), source: m },
            ),
            LoadEvent::Executed => LoadAction::List,
            LoadEvent::ExecutionFailed(e) => LoadAction::Fail(
                ScriptError::CompilationError { path: shown.to_owned(), message: e.message() },
            ),
            LoadEvent::Listed(groups) => match self.register(&groups, script, shown) {
                Ok(()) => LoadAction::Clear,
                Err(e) => LoadAction::Fail(e),
            },
            LoadEvent::ListFailed(e) => LoadAction::Fail(
                ScriptError::InternalError(
                    prefixed("Failed to get handlers: ", e.message().as_str()),
                ),
            ),
            LoadEvent::ListUnreadable(m) => LoadAction::Fail(
                ScriptError::InternalError(prefixed("V8 deserialization error: ", m.as_str())),
            ),
            LoadEvent::ListUnparsable(m) => LoadAction::Fail(
                ScriptError::InternalError(prefixed("Failed to parse handlers: ", m.as_str())),
            ),
            LoadEvent::Cleared => LoadAction::Done,
            LoadEvent::ClearFailed(e) => LoadAction::Fail(
                ScriptError::InternalError(
                    prefixed("Failed to clear handlers map: ", e.message().as_str()),
                ),
            ),
        }
    }
}

/// The regular expression of a pattern is the pattern itself where it holds a star, a
/// caret or a dollar sign, and else the text of it, with every character that means
/// something else behind a backslash.
pub proof fn law_pattern_regex(pattern: &str, r: String)
    requires
        call_ensures(pattern_regex, (pattern,), r),
    ensures
        pattern@.contains('*') ==> r@ == pattern@,
        pattern@.contains('^') ==> r@ == pattern@,
        pattern@.contains('$') ==> r@ == pattern@,
        !pattern@.contains('*') && !pattern@.contains('^') && !pattern@.contains('$') ==> r@
            == escaped(pattern@),
{
}

/// What follows from what a function did.
pub proof fn law_settle(outcome: HandlerOutcome, r: Flow)
    requires
        call_ensures(settle, (outcome,), r),
    ensures
        r is Stop <==> outcome is Returned && outcome->result == Some(false) && !(
        outcome->context is Unusable),
        r is Fail <==> outcome is Returned && outcome->context is Unusable,
{
    law_only_false_stops(outcome, r);
}

/// A script that ran too long is told from one that failed.
pub proof fn law_execution_error(
    name: &str,
    timed_out: bool,
    timeout_ms: u64,
    message: String,
    r: ScriptError,
)
    requires
        call_ensures(execution_error, (name, timed_out, timeout_ms, message), r),
    ensures
        timed_out ==> r@ == (ScriptErrorView::Timeout { script: name@, timeout_ms }),
        !timed_out ==> r@ == (ScriptErrorView::ExecutionError {
            script: name@,
            message: message@,
        }),
{
}

/// An event is over once a function returned `false` or left a context that cannot be
/// used, and stays over.
pub proof fn law_dispatch_settle(d: &mut Dispatch, outcome: HandlerOutcome, r: Flow)
    requires
        call_ensures(Dispatch::settle, (d, outcome), r),
    ensures
        final(d).over <==> old(d).over || (outcome is Returned && (outcome->result == Some(false)
            || outcome->context is Unusable)),
        final(d).event == old(d).event,
        final(d).at == old(d).at,
{
    law_only_false_stops(outcome, r);
}

} // verus!

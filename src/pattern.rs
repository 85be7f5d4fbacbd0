//! Compiled log patterns, and the two textual repairs that rule patterns get
//! before they are compiled.
use regex::Regex;
use vstd::prelude::*;

verus! {

#[verifier::external_type_specification]
#[verifier::external_body]
pub struct ExRegex(regex::Regex);

#[verifier::external_type_specification]
#[verifier::external_body]
pub struct ExRegexError(regex::Error);

/// Source of the repair that drops a backslash in front of a character that
/// is not a regular-expression metacharacter.
pub const FAULTY_ESCAPE: &'static str = r"(?:\\)([^\.\+\*\?\(\)\|\[\]\{\}\^\$])";

/// Source of the repair that turns a `|())` artifact into an optional group.
pub const EMPTY_ALTERNATIVE: &'static str = r"(\|\(\)\))";

/// Whether a regular expression with source `pattern` compiles.
pub uninterp spec fn regex_compiles(pattern: Seq<char>) -> bool;

/// Whether the regular expression with source `pattern` matches somewhere in `text`.
pub uninterp spec fn regex_finds(pattern: Seq<char>, text: Seq<char>) -> bool;

/// The first capture group of the leftmost match of `pattern` in `text`, if any.
pub uninterp spec fn regex_first_group(pattern: Seq<char>, text: Seq<char>) -> Option<Seq<char>>;

pub open spec fn is_regex_meta(c: char) -> bool {
    c == '.' || c == '+' || c == '*' || c == '?' || c == '(' || c == ')' || c == '|' || c == '['
        || c == ']' || c == '{' || c == '}' || c == '^' || c == '$'
}

/// The text with every backslash that escapes a non-metacharacter removed,
/// scanning left to right without overlap.
pub open spec fn strip_faulty_escapes(s: Seq<char>) -> Seq<char>
    decreases s.len(),
{
    if s.len() < 2 {
        s
    } else if s[0] == '\\' && !is_regex_meta(s[1]) {
        seq![s[1]] + strip_faulty_escapes(s.skip(2))
    } else {
        seq![s[0]] + strip_faulty_escapes(s.skip(1))
    }
}

pub open spec fn empty_alternative_text() -> Seq<char> {
    seq!['|', '(', ')', ')']
}

/// The text with every `|())` replaced by `)?`, scanning left to right without overlap.
pub open spec fn collapse_empty_alternatives(s: Seq<char>) -> Seq<char>
    decreases s.len(),
{
    if s.len() < 4 {
        s
    } else if s.take(4) == empty_alternative_text() {
        seq![')', '?'] + collapse_empty_alternatives(s.skip(4))
    } else {
        seq![s[0]] + collapse_empty_alternatives(s.skip(1))
    }
}

/// Both repairs, in the order in which the loader applies them.
pub open spec fn repaired_pattern(s: Seq<char>) -> Seq<char> {
    collapse_empty_alternatives(strip_faulty_escapes(s))
}

pub open spec fn has_faulty_escape(s: Seq<char>) -> bool {
    exists|i: int| 0 <= i < s.len() - 1 && s[i] == '\\' && !is_regex_meta(#[trigger] s[i + 1])
}

pub open spec fn has_empty_alternative(s: Seq<char>) -> bool {
    exists|i: int| 0 <= i <= s.len() - 4 && #[trigger] s.subrange(i, i + 4) == empty_alternative_text()
}

/// A compiled regular expression together with the source it was compiled
/// from. Only `compile` builds one, so `re` is always `source` compiled.
pub struct Pattern {
    re: Regex,
    source: String,
}

impl Pattern {
    /// The source text the pattern was compiled from.
    pub closed spec fn source(&self) -> Seq<char> {
        self.source@
    }

    /// Compiles `source`; `None` when it is not a valid regular expression.
    pub fn new(source: &str) -> (r: Option<Pattern>)
        ensures
            r.is_some() == regex_compiles(source@),
            r matches Some(p) ==> p.source() == source@,
    {
        match compile(source) {
            Ok(p) => Some(p),
            Err(_) => None,
        }
    }

    pub fn as_str(&self) -> (r: &str)
        ensures
            r@ == self.source(),
    {
        self.source.as_str()
    }

    /// Whether the pattern matches somewhere in `text`.
    pub fn is_match(&self, text: &str) -> (r: bool)
        ensures
            r == regex_finds(self.source(), text@),
    {
        find(self, text)
    }
}

/// Relies on regex::Regex::new: `Ok` exactly when the source is a valid
/// expression, and the compiled value keeps its source.
#[verifier::external_body]
fn compile(source: &str) -> (r: Result<Pattern, regex::Error>)
    ensures
        r.is_ok() == regex_compiles(source@),
        r matches Ok(p) ==> p.source() == source@,
{
    match Regex::new(source) {
        Ok(re) => Ok(Pattern { re, source: source.to_string() }),
        Err(e) => Err(e),
    }
}

/// Relies on regex::Regex::is_match: whether the expression matches anywhere in the text.
#[verifier::external_body]
fn find(p: &Pattern, text: &str) -> (r: bool)
    ensures
        r == regex_finds(p.source(), text@),
{
    p.re.is_match(text)
}

/// Relies on regex::Regex::captures: the text of group 1 of the leftmost match.
#[verifier::external_body]
pub(crate) fn first_group(p: &Pattern, text: &str) -> (r: Option<String>)
    ensures
        r matches Some(g) ==> regex_first_group(p.source(), text@) == Some(g@),
        r is None ==> regex_first_group(p.source(), text@) is None,
{
    p.re.captures(text).and_then(|c| c.get(1)).map(|m| m.as_str().to_string())
}

/// Relies on regex::Regex::replace_all: every non-overlapping match, found from
/// left to right, is replaced by the expanded replacement. For the two repair
/// expressions this is the removal of faulty escapes (`$1` keeps the escaped
/// character) and the collapse of `|())` into `)?`.
#[verifier::external_body]
pub(crate) fn replace_all(p: &Pattern, text: &str, replacement: &str) -> (r: String)
    ensures
        p.source() == FAULTY_ESCAPE@ && replacement@ == seq!['$', '1']
            ==> r@ == strip_faulty_escapes(text@),
        p.source() == EMPTY_ALTERNATIVE@ && replacement@ == seq![')', '?']
            ==> r@ == collapse_empty_alternatives(text@),
{
    p.re.replace_all(text, replacement).into_owned()
}

/// Lines of an `m3u` playlist that hold a directive rather than a file.
pub const M3U_MARKER: &'static str = r"#EXT[A-Z]*";

/// Lines of a `pls` playlist that name a file; group 1 is the file.
pub const PLS_ENTRY: &'static str = r"File.+=(.+)";

/// The fixed expressions the loader uses, compiled once.
pub struct LoaderPatterns {
    pub faulty_escape: Pattern,
    pub empty_alternative: Pattern,
    pub m3u_marker: Pattern,
    pub pls_entry: Pattern,
}

impl LoaderPatterns {
    pub open spec fn wf(&self) -> bool {
        &&& self.faulty_escape.source() == FAULTY_ESCAPE@
        &&& self.empty_alternative.source() == EMPTY_ALTERNATIVE@
        &&& self.m3u_marker.source() == M3U_MARKER@
        &&& self.pls_entry.source() == PLS_ENTRY@
    }

    /// Compiles the four expressions; `None` if one of them does not compile.
    pub fn new() -> (r: Option<LoaderPatterns>)
        ensures
            r is Some <==> (regex_compiles(FAULTY_ESCAPE@) && regex_compiles(EMPTY_ALTERNATIVE@)
                && regex_compiles(M3U_MARKER@) && regex_compiles(PLS_ENTRY@)),
            r matches Some(p) ==> p.wf(),
    {
        let faulty_escape = Pattern::new(FAULTY_ESCAPE);
        let empty_alternative = Pattern::new(EMPTY_ALTERNATIVE);
        let m3u_marker = Pattern::new(M3U_MARKER);
        let pls_entry = Pattern::new(PLS_ENTRY);
        match (faulty_escape, empty_alternative, m3u_marker, pls_entry) {
            (Some(faulty_escape), Some(empty_alternative), Some(m3u_marker), Some(pls_entry)) => Some(
                LoaderPatterns { faulty_escape, empty_alternative, m3u_marker, pls_entry },
            ),
            _ => None,
        }
    }

    /// Drops faulty escapes, then collapses `|())` artifacts.
    pub fn repair(&self, text: &str) -> (r: String)
        requires
            self.wf(),
        ensures
            r@ == repaired_pattern(text@),
    {
        proof {
            reveal_strlit("$1");
            reveal_strlit(")?");
            assert("$1"@ =~= seq!['$', '1']);
            assert(")?"@ =~= seq![')', '?']);
        }
        let stripped = replace_all(&self.faulty_escape, text, "$1");
        replace_all(&self.empty_alternative, stripped.as_str(), ")?")
    }
}

proof fn lemma_strip_keeps_clean_text(t: Seq<char>)
    requires
        !has_faulty_escape(t),
    ensures
        strip_faulty_escapes(t) == t,
    decreases t.len(),
{
    if t.len() >= 2 {
        let rest = t.skip(1);
        assert(t[1] == rest[0]);
        if t[0] == '\\' {
            assert(is_regex_meta(t[0int + 1]));
        }
        assert forall|i: int| 0 <= i < rest.len() - 1 && rest[i] == '\\' implies is_regex_meta(
            #[trigger] rest[i + 1],
        ) by {
            assert(rest[i] == t[i + 1] && rest[i + 1] == t[(i + 1) + 1]);
        }
        lemma_strip_keeps_clean_text(rest);
        assert(seq![t[0]] + rest =~= t);
    }
}

proof fn lemma_collapse_keeps_clean_text(t: Seq<char>)
    requires
        !has_empty_alternative(t),
    ensures
        collapse_empty_alternatives(t) == t,
    decreases t.len(),
{
    if t.len() >= 4 {
        let rest = t.skip(1);
        assert(t.subrange(0int, 0int + 4) =~= t.take(4));
        assert forall|i: int| 0 <= i <= rest.len() - 4 implies #[trigger] rest.subrange(i, i + 4)
            != empty_alternative_text() by {
            assert(rest.subrange(i, i + 4) =~= t.subrange(i + 1, (i + 1) + 4));
        }
        lemma_collapse_keeps_clean_text(rest);
        assert(seq![t[0]] + rest =~= t);
    }
}

proof fn lemma_strip_shortens(t: Seq<char>)
    ensures
        strip_faulty_escapes(t).len() <= t.len(),
        has_faulty_escape(t) ==> strip_faulty_escapes(t).len() < t.len(),
    decreases t.len(),
{
    if t.len() >= 2 {
        let rest = t.skip(1);
        lemma_strip_shortens(t.skip(2));
        lemma_strip_shortens(rest);
        if has_faulty_escape(t) && !(t[0] == '\\' && !is_regex_meta(t[1])) {
            let i = choose|i: int| 0 <= i < t.len() - 1 && t[i] == '\\' && !is_regex_meta(#[trigger] t[i + 1]);
            assert(i != 0);
            assert(rest[i - 1] == t[i] && rest[(i - 1) + 1] == t[i + 1]);
        }
    }
}

proof fn lemma_collapse_shortens(t: Seq<char>)
    ensures
        collapse_empty_alternatives(t).len() <= t.len(),
        has_empty_alternative(t) ==> collapse_empty_alternatives(t).len() < t.len(),
    decreases t.len(),
{
    if t.len() >= 4 {
        let rest = t.skip(1);
        lemma_collapse_shortens(t.skip(4));
        lemma_collapse_shortens(rest);
        if has_empty_alternative(t) && t.take(4) != empty_alternative_text() {
            let i = choose|i: int| 0 <= i <= t.len() - 4 && #[trigger] t.subrange(i, i + 4) == empty_alternative_text();
            assert(t.subrange(0int, 0int + 4) =~= t.take(4));
            assert(i != 0);
            assert(rest.subrange(i - 1, (i - 1) + 4) =~= t.subrange(i, i + 4));
        }
    }
}

/// Repairing a pattern a second time changes nothing exactly when the first
/// repair left neither a faulty escape nor a `|())` artifact behind.
pub proof fn repair_is_idempotent(s: Seq<char>)
    ensures
        repaired_pattern(repaired_pattern(s)) == repaired_pattern(s) <==> (!has_faulty_escape(
            repaired_pattern(s),
        ) && !has_empty_alternative(repaired_pattern(s))),
{
    let u = repaired_pattern(s);
    if !has_faulty_escape(u) {
        lemma_strip_keeps_clean_text(u);
        if !has_empty_alternative(u) {
            lemma_collapse_keeps_clean_text(u);
        } else {
            lemma_collapse_shortens(u);
        }
    } else {
        lemma_strip_shortens(u);
        lemma_collapse_shortens(strip_faulty_escapes(u));
    }
}

} // verus!

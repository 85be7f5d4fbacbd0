//! Loading rules from a rule file: `<sound>` elements with their attributes,
//! and the `<soundFile>` elements nested in them.
use crate::pattern::{regex_compiles, repaired_pattern, LoaderPatterns, Pattern};
use crate::playlist::{join, parent_of, parse_playlist, same_text, path_joined, path_parent, playlist_paths};
use crate::rule::{FileView, LoopMode, RuleEntry, RuleView, SoundFile, SoundSource, SourceView};
use vstd::prelude::*;
use xml::reader::XmlEvent;

verus! {

#[verifier::external_type_specification]
#[verifier::external_body]
pub struct ExXmlError(xml::reader::Error);

/// One attribute of an element.
pub struct Attribute {
    pub name: String,
    pub value: String,
}

/// The events of a document that rule loading reads.
pub enum XmlItem {
    /// An opening (or bodiless) tag, by local name, with its attributes.
    Open { name: String, attributes: Vec<Attribute> },
    /// A closing tag, by local name.
    Close { name: String },
    /// Anything else: text, comments, declarations.
    Other,
}

/// The events of the XML document `doc`, or `None` where it is not well formed.
pub uninterp spec fn xml_items(doc: Seq<char>) -> Option<Seq<XmlItem>>;

/// Relies on xml::reader::EventReader: the events of the document in order,
/// or the first parse error.
#[verifier::external_body]
fn read_xml(doc: &str) -> (r: Result<Vec<XmlItem>, xml::reader::Error>)
    ensures
        r is Ok <==> xml_items(doc@) is Some,
        r matches Ok(v) ==> xml_items(doc@) == Some(v@),
{
    let mut items = Vec::new();
    for event in xml::reader::EventReader::from_str(doc) {
        items.push(match event? {
            XmlEvent::StartElement { name, attributes, .. } => XmlItem::Open {
                name: name.local_name,
                attributes: attributes.into_iter().map(|a| Attribute { name: a.name.local_name, value: a.value }).collect(),
            },
            XmlEvent::EndElement { name } => XmlItem::Close { name: name.local_name },
            _ => XmlItem::Other,
        });
    }
    Ok(items)
}

/// The decimal digits `s` as a number.
pub open spec fn digits_value(s: Seq<char>) -> int
    decreases s.len(),
{
    if s.len() == 0 {
        0
    } else {
        digits_value(s.drop_last()) * 10 + (s.last() as int - '0' as int)
    }
}

/// `s` read as a `usize`: an optional `+`, then one or more decimal digits
/// whose value fits.
pub open spec fn parsed_usize(s: Seq<char>) -> Option<usize> {
    let d = if s.len() > 0 && s[0] == '+' { s.skip(1) } else { s };
    if d.len() > 0 && (forall|i: int| 0 <= i < d.len() ==> '0' <= #[trigger] d[i] <= '9') && digits_value(d)
        <= usize::MAX {
        Some(digits_value(d) as usize)
    } else {
        None
    }
}

/// Relies on str::parse::<usize>: an optional `+` and decimal digits, without
/// overflow; anything else is an error.
#[verifier::external_body]
fn parse_usize(s: &str) -> (r: Option<usize>)
    ensures
        r == parsed_usize(s@),
{
    s.parse::<usize>().ok()
}

/// Why loading a rule file failed.
pub enum LoadError {
    /// The document is not well-formed XML.
    MalformedDocument,
    /// The repaired pattern does not compile.
    InvalidPattern(String),
    /// A `<sound>` element has no pattern.
    MissingPattern,
    /// A numeric attribute does not hold a number.
    InvalidNumber(String),
    /// The contents of this playlist were not supplied.
    NeedPlaylist(String),
    /// This playlist is neither `m3u` nor `pls`.
    UnsupportedPlaylist(String),
}

pub enum LoadFailure {
    MalformedDocument,
    InvalidPattern(Seq<char>),
    MissingPattern,
    InvalidNumber(Seq<char>),
    NeedPlaylist(Seq<char>),
    UnsupportedPlaylist(Seq<char>),
}

impl View for LoadError {
    type V = LoadFailure;

    open spec fn view(&self) -> LoadFailure {
        match self {
            LoadError::MalformedDocument => LoadFailure::MalformedDocument,
            LoadError::InvalidPattern(p) => LoadFailure::InvalidPattern(p@),
            LoadError::MissingPattern => LoadFailure::MissingPattern,
            LoadError::InvalidNumber(v) => LoadFailure::InvalidNumber(v@),
            LoadError::NeedPlaylist(p) => LoadFailure::NeedPlaylist(p@),
            LoadError::UnsupportedPlaylist(p) => LoadFailure::UnsupportedPlaylist(p@),
        }
    }
}

/// The settings of a `<sound>` element read so far.
pub struct RuleAttrs {
    pub pattern: Option<Seq<char>>,
    pub channel: Option<Seq<char>>,
    pub loop_mode: Option<LoopMode>,
    pub concurency: Option<usize>,
    pub timeout: Option<usize>,
    pub probability: Option<usize>,
    pub delay: Option<usize>,
    pub halt_on_match: bool,
    pub random_balance: bool,
}

pub open spec fn no_rule_attrs() -> RuleAttrs {
    RuleAttrs {
        pattern: None,
        channel: None,
        loop_mode: None,
        concurency: None,
        timeout: None,
        probability: None,
        delay: None,
        halt_on_match: false,
        random_balance: false,
    }
}

/// One attribute of a `<sound>` element applied to the settings read before it.
/// A later attribute of the same name wins; unknown attributes are ignored.
pub open spec fn rule_attr_step(r: RuleAttrs, a: Attribute) -> Result<RuleAttrs, LoadFailure> {
    let (n, v) = (a.name@, a.value@);
    if n == "logPattern"@ {
        if regex_compiles(repaired_pattern(v)) {
            Ok(RuleAttrs { pattern: Some(repaired_pattern(v)), ..r })
        } else {
            Err(LoadFailure::InvalidPattern(repaired_pattern(v)))
        }
    } else if n == "channel"@ {
        Ok(RuleAttrs { channel: Some(v), ..r })
    } else if n == "loop"@ {
        Ok(RuleAttrs { loop_mode: Some(if v == "start"@ { LoopMode::Start } else { LoopMode::Stop }), ..r })
    } else if n == "concurency"@ || n == "timeout"@ || n == "propability"@ || n == "delay"@ {
        match parsed_usize(v) {
            None => Err(LoadFailure::InvalidNumber(v)),
            Some(x) => Ok(if n == "concurency"@ {
                RuleAttrs { concurency: Some(x), ..r }
            } else if n == "timeout"@ {
                RuleAttrs { timeout: Some(x), ..r }
            } else if n == "propability"@ {
                RuleAttrs { probability: Some(x), ..r }
            } else {
                RuleAttrs { delay: Some(x), ..r }
            }),
        }
    } else if n == "haltOnMatch"@ {
        Ok(if v == "true"@ { RuleAttrs { halt_on_match: true, ..r } } else { r })
    } else if n == "randomBalance"@ {
        Ok(if v == "true"@ { RuleAttrs { random_balance: true, ..r } } else { r })
    } else {
        Ok(r)
    }
}

/// The attributes of a `<sound>` element read in order; the first error ends it.
pub open spec fn rule_attrs(attrs: Seq<Attribute>) -> Result<RuleAttrs, LoadFailure>
    decreases attrs.len(),
{
    if attrs.len() == 0 {
        Ok(no_rule_attrs())
    } else {
        match rule_attrs(attrs.drop_last()) {
            Ok(r) => rule_attr_step(r, attrs.last()),
            Err(e) => Err(e),
        }
    }
}

/// The rule a `<sound>` element opens, still without files.
pub open spec fn rule_of(attrs: Seq<Attribute>) -> Result<RuleView, LoadFailure> {
    match rule_attrs(attrs) {
        Err(e) => Err(e),
        Ok(r) => match r.pattern {
            None => Err(LoadFailure::MissingPattern),
            Some(p) => Ok(
                RuleView {
                    pattern: p,
                    channel: r.channel,
                    loop_mode: r.loop_mode,
                    concurency: r.concurency,
                    timeout: r.timeout,
                    probability: r.probability,
                    delay: r.delay,
                    halt_on_match: r.halt_on_match,
                    random_balance: r.random_balance,
                    files: seq![],
                },
            ),
        },
    }
}

proof fn lemma_rule_attrs_error_stays(attrs: Seq<Attribute>, k: int)
    requires
        0 <= k <= attrs.len(),
        rule_attrs(attrs.take(k)) is Err,
    ensures
        rule_attrs(attrs) == rule_attrs(attrs.take(k)),
    decreases attrs.len(),
{
    if k == attrs.len() {
        assert(attrs.take(k) =~= attrs);
    } else {
        assert(attrs.drop_last().take(k) =~= attrs.take(k));
        lemma_rule_attrs_error_stays(attrs.drop_last(), k);
    }
}

/// The settings of a `<sound>` element being read.
struct RuleFields {
    pattern: Option<Pattern>,
    channel: Option<String>,
    loop_mode: Option<LoopMode>,
    concurency: Option<usize>,
    timeout: Option<usize>,
    probability: Option<usize>,
    delay: Option<usize>,
    halt_on_match: bool,
    random_balance: bool,
}

impl View for RuleFields {
    type V = RuleAttrs;

    closed spec fn view(&self) -> RuleAttrs {
        RuleAttrs {
            pattern: match self.pattern {
                Some(p) => Some(p.source()),
                None => None,
            },
            channel: crate::rule::opt_text(self.channel),
            loop_mode: self.loop_mode,
            concurency: self.concurency,
            timeout: self.timeout,
            probability: self.probability,
            delay: self.delay,
            halt_on_match: self.halt_on_match,
            random_balance: self.random_balance,
        }
    }
}

fn apply_rule_attr(patterns: &LoaderPatterns, r: RuleFields, a: &Attribute) -> (out: Result<
    RuleFields,
    LoadError,
>)
    requires
        patterns.wf(),
    ensures
        match out {
            Ok(f) => rule_attr_step(r@, *a) == Ok::<RuleAttrs, LoadFailure>(f@),
            Err(e) => rule_attr_step(r@, *a) == Err::<RuleAttrs, LoadFailure>(e@),
        },
{
    let mut r = r;
    let n = a.name.as_str();
    let v = a.value.as_str();
    if same_text(n, "logPattern") {
        let text = patterns.repair(v);
        match Pattern::new(text.as_str()) {
            Some(p) => {
                r.pattern = Some(p);
            },
            None => {
                return Err(LoadError::InvalidPattern(text));
            },
        }
    } else if same_text(n, "channel") {
        r.channel = Some(a.value.clone());
    } else if same_text(n, "loop") {
        r.loop_mode = Some(
            if same_text(v, "start") {
                LoopMode::Start
            } else {
                LoopMode::Stop
            },
        );
    } else if same_text(n, "concurency") || same_text(n, "timeout") || same_text(n, "propability")
        || same_text(n, "delay") {
        match parse_usize(v) {
            None => {
                return Err(LoadError::InvalidNumber(a.value.clone()));
            },
            Some(x) => {
                if same_text(n, "concurency") {
                    r.concurency = Some(x);
                } else if same_text(n, "timeout") {
                    r.timeout = Some(x);
                } else if same_text(n, "propability") {
                    r.probability = Some(x);
                } else {
                    r.delay = Some(x);
                }
            },
        }
    } else if same_text(n, "haltOnMatch") {
        if same_text(v, "true") {
            r.halt_on_match = true;
        }
    } else if same_text(n, "randomBalance") {
        if same_text(v, "true") {
            r.random_balance = true;
        }
    }
    Ok(r)
}

/// The rule that a `<sound>` element with these attributes opens, with no files yet.
pub fn parse_rule(patterns: &LoaderPatterns, attrs: &Vec<Attribute>) -> (r: Result<RuleEntry, LoadError>)
    requires
        patterns.wf(),
    ensures
        match r {
            Ok(e) => rule_of(attrs@) == Ok::<RuleView, LoadFailure>(e@),
            Err(e) => rule_of(attrs@) == Err::<RuleView, LoadFailure>(e@),
        },
{
    let mut fields = RuleFields {
        pattern: None,
        channel: None,
        loop_mode: None,
        concurency: None,
        timeout: None,
        probability: None,
        delay: None,
        halt_on_match: false,
        random_balance: false,
    };
    let mut k: usize = 0;
    while k < attrs.len()
        invariant
            patterns.wf(),
            k <= attrs@.len(),
            rule_attrs(attrs@.take(k as int)) == Ok::<RuleAttrs, LoadFailure>(fields@),
        decreases attrs@.len() - k,
    {
        proof {
            assert(attrs@.take(k + 1).drop_last() =~= attrs@.take(k as int));
        }
        match apply_rule_attr(patterns, fields, &attrs[k]) {
            Ok(f) => {
                fields = f;
            },
            Err(e) => {
                proof {
                    lemma_rule_attrs_error_stays(attrs@, k + 1);
                }
                return Err(e);
            },
        }
        k += 1;
    }
    proof {
        assert(attrs@.take(k as int) =~= attrs@);
    }
    match fields.pattern {
        None => Err(LoadError::MissingPattern),
        Some(p) => {
            let entry = RuleEntry {
                pattern: p,
                channel: fields.channel,
                loop_mode: fields.loop_mode,
                concurency: fields.concurency,
                timeout: fields.timeout,
                probability: fields.probability,
                delay: fields.delay,
                halt_on_match: fields.halt_on_match,
                random_balance: fields.random_balance,
                files: Vec::new(),
            };
            proof {
                assert(entry@.files =~= Seq::<FileView>::empty());
            }
            Ok(entry)
        },
    }
}

/// The settings of a `<soundFile>` element read so far; `path` starts as the
/// rule file's directory and every `fileName` is joined onto it.
pub struct FileAttrs {
    pub path: Seq<char>,
    pub is_playlist: bool,
    pub weight: usize,
    pub volume: Seq<char>,
    pub random_balance: bool,
    pub balance: Seq<char>,
    pub delay: usize,
}

pub open spec fn no_file_attrs(dir: Seq<char>) -> FileAttrs {
    FileAttrs {
        path: dir,
        is_playlist: false,
        weight: 0,
        volume: seq![],
        random_balance: false,
        balance: seq![],
        delay: 0,
    }
}

/// One attribute of a `<soundFile>` element applied to the settings read before it.
pub open spec fn file_attr_step(f: FileAttrs, a: Attribute) -> Result<FileAttrs, LoadFailure> {
    let (n, v) = (a.name@, a.value@);
    if n == "fileName"@ {
        Ok(FileAttrs { path: path_joined(f.path, v), ..f })
    } else if n == "weight"@ || n == "delay"@ {
        match parsed_usize(v) {
            None => Err(LoadFailure::InvalidNumber(v)),
            Some(x) => Ok(if n == "weight"@ { FileAttrs { weight: x, ..f } } else { FileAttrs { delay: x, ..f } }),
        }
    } else if n == "volumeAdjustment"@ {
        Ok(FileAttrs { volume: v, ..f })
    } else if n == "randomBalance"@ {
        Ok(if v == "true"@ { FileAttrs { random_balance: true, ..f } } else { f })
    } else if n == "balanceAdjustment"@ {
        Ok(FileAttrs { balance: v, ..f })
    } else if n == "playlist"@ {
        Ok(FileAttrs { is_playlist: true, ..f })
    } else {
        Ok(f)
    }
}

pub open spec fn file_attrs(dir: Seq<char>, attrs: Seq<Attribute>) -> Result<FileAttrs, LoadFailure>
    decreases attrs.len(),
{
    if attrs.len() == 0 {
        Ok(no_file_attrs(dir))
    } else {
        match file_attrs(dir, attrs.drop_last()) {
            Ok(f) => file_attr_step(f, attrs.last()),
            Err(e) => Err(e),
        }
    }
}

/// The contents supplied for the playlist at `path`: the first entry of that path.
pub open spec fn supplied(playlists: Seq<(String, String)>, path: Seq<char>) -> Option<Seq<char>>
    decreases playlists.len(),
{
    if playlists.len() == 0 {
        None
    } else if playlists[0].0@ == path {
        Some(playlists[0].1@)
    } else {
        supplied(playlists.skip(1), path)
    }
}

/// The entry a `<soundFile>` element adds to its rule; a playlist is expanded
/// from its supplied contents.
pub open spec fn file_of(dir: Seq<char>, attrs: Seq<Attribute>, playlists: Seq<(String, String)>) -> Result<
    FileView,
    LoadFailure,
> {
    match file_attrs(dir, attrs) {
        Err(e) => Err(e),
        Ok(f) => {
            let entry = |source: SourceView|
                FileView {
                    source,
                    weight: f.weight,
                    volume: f.volume,
                    random_balance: f.random_balance,
                    balance: f.balance,
                    delay: f.delay,
                };
            if !f.is_playlist {
                Ok(entry(SourceView::Path(f.path)))
            } else {
                match supplied(playlists, f.path) {
                    None => Err(LoadFailure::NeedPlaylist(f.path)),
                    Some(content) => match playlist_paths(f.path, content) {
                        None => Err(LoadFailure::UnsupportedPlaylist(f.path)),
                        Some(paths) => Ok(entry(SourceView::Playlist(paths))),
                    },
                }
            }
        },
    }
}

proof fn lemma_file_attrs_error_stays(dir: Seq<char>, attrs: Seq<Attribute>, k: int)
    requires
        0 <= k <= attrs.len(),
        file_attrs(dir, attrs.take(k)) is Err,
    ensures
        file_attrs(dir, attrs) == file_attrs(dir, attrs.take(k)),
    decreases attrs.len(),
{
    if k == attrs.len() {
        assert(attrs.take(k) =~= attrs);
    } else {
        assert(attrs.drop_last().take(k) =~= attrs.take(k));
        lemma_file_attrs_error_stays(dir, attrs.drop_last(), k);
    }
}

fn find_supplied<'a>(playlists: &'a Vec<(String, String)>, path: &String) -> (r: Option<&'a String>)
    ensures
        match r {
            Some(c) => supplied(playlists@, path@) == Some(c@),
            None => supplied(playlists@, path@) is None,
        },
{
    let mut k: usize = 0;
    proof {
        assert(playlists@.skip(0) =~= playlists@);
    }
    while k < playlists.len()
        invariant
            k <= playlists@.len(),
            supplied(playlists@, path@) == supplied(playlists@.skip(k as int), path@),
        decreases playlists@.len() - k,
    {
        proof {
            assert(playlists@.skip(k as int).skip(1) =~= playlists@.skip(k + 1));
            assert(playlists@.skip(k as int)[0] == playlists@[k as int]);
        }
        if playlists[k].0 == *path {
            return Some(&playlists[k].1);
        }
        k += 1;
    }
    proof {
        assert(playlists@.skip(k as int) =~= Seq::<(String, String)>::empty());
    }
    None
}

/// The entry that a `<soundFile>` element with these attributes, in a rule
/// file in directory `dir`, adds to its rule.
pub fn parse_sound_file(
    patterns: &LoaderPatterns,
    dir: &str,
    attrs: &Vec<Attribute>,
    playlists: &Vec<(String, String)>,
) -> (r: Result<SoundFile, LoadError>)
    requires
        patterns.wf(),
    ensures
        match r {
            Ok(f) => file_of(dir@, attrs@, playlists@) == Ok::<FileView, LoadFailure>(f@),
            Err(e) => file_of(dir@, attrs@, playlists@) == Err::<FileView, LoadFailure>(e@),
        },
{
    let mut path = dir.to_owned();
    let mut is_playlist = false;
    let mut weight: usize = 0;
    let mut volume = String::new();
    let mut random_balance = false;
    let mut balance = String::new();
    let mut delay: usize = 0;
    let mut k: usize = 0;
    while k < attrs.len()
        invariant
            k <= attrs@.len(),
            file_attrs(dir@, attrs@.take(k as int)) == Ok::<FileAttrs, LoadFailure>(
                FileAttrs { path: path@, is_playlist, weight, volume: volume@, random_balance, balance: balance@, delay },
            ),
        decreases attrs@.len() - k,
    {
        proof {
            assert(attrs@.take(k + 1).drop_last() =~= attrs@.take(k as int));
        }
        let n = attrs[k].name.as_str();
        let v = attrs[k].value.as_str();
        if same_text(n, "fileName") {
            path = join(path.as_str(), v);
        } else if same_text(n, "weight") || same_text(n, "delay") {
            match parse_usize(v) {
                None => {
                    proof {
                        lemma_file_attrs_error_stays(dir@, attrs@, k + 1);
                    }
                    return Err(LoadError::InvalidNumber(attrs[k].value.clone()));
                },
                Some(x) => {
                    if same_text(n, "weight") {
                        weight = x;
                    } else {
                        delay = x;
                    }
                },
            }
        } else if same_text(n, "volumeAdjustment") {
            volume = attrs[k].value.clone();
        } else if same_text(n, "randomBalance") {
            if same_text(v, "true") {
                random_balance = true;
            }
        } else if same_text(n, "balanceAdjustment") {
            balance = attrs[k].value.clone();
        } else if same_text(n, "playlist") {
            is_playlist = true;
        }
        k += 1;
    }
    proof {
        assert(attrs@.take(k as int) =~= attrs@);
    }
    let source = if !is_playlist {
        SoundSource::Path(path)
    } else {
        match find_supplied(playlists, &path) {
            None => {
                return Err(LoadError::NeedPlaylist(path));
            },
            Some(content) => match parse_playlist(patterns, path.as_str(), content.as_str()) {
                Ok(paths) => SoundSource::Playlist(paths),
                Err(_) => {
                    return Err(LoadError::UnsupportedPlaylist(path));
                },
            },
        }
    };
    Ok(SoundFile { source, weight, volume, random_balance, balance, delay })
}

/// Rules read so far, and the `<sound>` element still open, if any.
pub struct LoadState {
    pub rules: Seq<RuleView>,
    pub current: Option<RuleView>,
}

/// One event of a rule file applied to the state before it. A `<soundFile>`
/// counts only inside an open `<sound>`; closing a `<sound>` completes its rule.
pub open spec fn item_step(
    dir: Seq<char>,
    playlists: Seq<(String, String)>,
    st: LoadState,
    item: XmlItem,
) -> Result<LoadState, LoadFailure> {
    match item {
        XmlItem::Open { name, attributes } => if name@ == "sound"@ {
            match rule_of(attributes@) {
                Err(e) => Err(e),
                Ok(r) => Ok(LoadState { current: Some(r), ..st }),
            }
        } else if name@ == "soundFile"@ && st.current is Some {
            match file_of(dir, attributes@, playlists) {
                Err(e) => Err(e),
                Ok(f) => {
                    let cur = st.current->Some_0;
                    Ok(LoadState { current: Some(RuleView { files: cur.files.push(f), ..cur }), ..st })
                },
            }
        } else {
            Ok(st)
        },
        XmlItem::Close { name } => if name@ == "sound"@ && st.current is Some {
            Ok(LoadState { rules: st.rules.push(st.current->Some_0), current: None })
        } else {
            Ok(st)
        },
        XmlItem::Other => Ok(st),
    }
}

pub open spec fn load_state(dir: Seq<char>, playlists: Seq<(String, String)>, items: Seq<XmlItem>) -> Result<
    LoadState,
    LoadFailure,
>
    decreases items.len(),
{
    if items.len() == 0 {
        Ok(LoadState { rules: seq![], current: None })
    } else {
        match load_state(dir, playlists, items.drop_last()) {
            Ok(st) => item_step(dir, playlists, st, items.last()),
            Err(e) => Err(e),
        }
    }
}

/// The directory that the files of a rule file are relative to.
pub open spec fn rule_dir(file_path: Seq<char>) -> Seq<char> {
    match path_parent(file_path) {
        Some(d) => d,
        None => file_path,
    }
}

/// The rules that the rule file at `file_path` with contents `doc` defines,
/// in document order, given the contents of the playlists it refers to.
pub open spec fn loaded_rules(file_path: Seq<char>, doc: Seq<char>, playlists: Seq<(String, String)>) -> Result<
    Seq<RuleView>,
    LoadFailure,
> {
    match xml_items(doc) {
        None => Err(LoadFailure::MalformedDocument),
        Some(items) => match load_state(rule_dir(file_path), playlists, items) {
            Err(e) => Err(e),
            Ok(st) => Ok(st.rules),
        },
    }
}

pub open spec fn rule_views(rules: Seq<RuleEntry>) -> Seq<RuleView> {
    rules.map_values(|e: RuleEntry| e@)
}

pub open spec fn opt_rule_view(o: Option<RuleEntry>) -> Option<RuleView> {
    match o {
        Some(e) => Some(e@),
        None => None,
    }
}

proof fn lemma_load_state_error_stays(
    dir: Seq<char>,
    playlists: Seq<(String, String)>,
    items: Seq<XmlItem>,
    k: int,
)
    requires
        0 <= k <= items.len(),
        load_state(dir, playlists, items.take(k)) is Err,
    ensures
        load_state(dir, playlists, items) == load_state(dir, playlists, items.take(k)),
    decreases items.len(),
{
    if k == items.len() {
        assert(items.take(k) =~= items);
    } else {
        assert(items.drop_last().take(k) =~= items.take(k));
        lemma_load_state_error_stays(dir, playlists, items.drop_last(), k);
    }
}

/// Loads the rules of one rule file. `file_path` is where it lies, `doc` its
/// contents, and `playlists` pairs of a playlist's path and contents; a
/// playlist that is referred to and not among them ends the load with
/// [`LoadError::NeedPlaylist`] and its path.
pub fn load_rules(
    patterns: &LoaderPatterns,
    file_path: &str,
    doc: &str,
    playlists: &Vec<(String, String)>,
) -> (r: Result<Vec<RuleEntry>, LoadError>)
    requires
        patterns.wf(),
    ensures
        match r {
            Ok(v) => loaded_rules(file_path@, doc@, playlists@) == Ok::<Seq<RuleView>, LoadFailure>(rule_views(v@)),
            Err(e) => loaded_rules(file_path@, doc@, playlists@) == Err::<Seq<RuleView>, LoadFailure>(e@),
        },
{
    let items = match read_xml(doc) {
        Ok(v) => v,
        Err(_) => {
            return Err(LoadError::MalformedDocument);
        },
    };
    let dir = match parent_of(file_path) {
        Some(d) => d,
        None => file_path.to_owned(),
    };
    let ghost all = items@;
    let mut rules: Vec<RuleEntry> = Vec::new();
    let mut current: Option<RuleEntry> = None;
    let mut k: usize = 0;
    proof {
        assert(rule_views(rules@) =~= Seq::<RuleView>::empty());
        assert(all.take(0) =~= Seq::<XmlItem>::empty());
    }
    while k < items.len()
        invariant
            patterns.wf(),
            all == items@,
            xml_items(doc@) == Some(all),
            dir@ == rule_dir(file_path@),
            k <= items@.len(),
            load_state(dir@, playlists@, all.take(k as int)) == Ok::<LoadState, LoadFailure>(
                LoadState { rules: rule_views(rules@), current: opt_rule_view(current) },
            ),
        decreases items@.len() - k,
    {
        proof {
            assert(all.take(k + 1).drop_last() =~= all.take(k as int));
            assert(all.take(k + 1).last() == all[k as int]);
        }
        let ghost before = rules@;
        match &items[k] {
            XmlItem::Open { name, attributes } => {
                if same_text(name.as_str(), "sound") {
                    match parse_rule(patterns, attributes) {
                        Ok(e) => {
                            current = Some(e);
                        },
                        Err(e) => {
                            proof {
                                assert(load_state(dir@, playlists@, all.take(k + 1)) == Err::<LoadState, LoadFailure>(e@));
                                lemma_load_state_error_stays(dir@, playlists@, all, k + 1);
                            }
                            return Err(e);
                        },
                    }
                } else if same_text(name.as_str(), "soundFile") && current.is_some() {
                    match parse_sound_file(patterns, dir.as_str(), attributes, playlists) {
                        Ok(f) => {
                            current = match current {
                                Some(mut c) => {
                                    let ghost old_files = c.files@;
                                    c.files.push(f);
                                    proof {
                                        assert(c.files@.map_values(|x: SoundFile| x@) =~= old_files.map_values(
                                            |x: SoundFile| x@,
                                        ).push(f@));
                                    }
                                    Some(c)
                                },
                                None => None,
                            };
                        },
                        Err(e) => {
                            proof {
                                assert(load_state(dir@, playlists@, all.take(k + 1)) == Err::<LoadState, LoadFailure>(e@));
                                lemma_load_state_error_stays(dir@, playlists@, all, k + 1);
                            }
                            return Err(e);
                        },
                    }
                }
            },
            XmlItem::Close { name } => {
                if same_text(name.as_str(), "sound") && current.is_some() {
                    let done = current;
                    current = None;
                    match done {
                        Some(c) => {
                            rules.push(c);
                            proof {
                                assert(rule_views(rules@) =~= rule_views(before).push(c@));
                            }
                        },
                        None => {},
                    }
                }
            },
            XmlItem::Other => {},
        }
        k += 1;
    }
    proof {
        assert(all.take(k as int) =~= all);
    }
    Ok(rules)
}

proof fn lemma_rule_attrs_pattern_compiles(attrs: Seq<Attribute>)
    ensures
        rule_attrs(attrs) matches Ok(r) ==> (r.pattern matches Some(p) ==> regex_compiles(p)),
    decreases attrs.len(),
{
    if attrs.len() > 0 {
        lemma_rule_attrs_pattern_compiles(attrs.drop_last());
    }
}

pub open spec fn all_compile(rules: Seq<RuleView>) -> bool {
    forall|i: int| 0 <= i < rules.len() ==> regex_compiles(#[trigger] rules[i].pattern)
}

proof fn lemma_load_state_patterns_compile(dir: Seq<char>, playlists: Seq<(String, String)>, items: Seq<XmlItem>)
    ensures
        load_state(dir, playlists, items) matches Ok(st) ==> all_compile(st.rules) && (st.current matches Some(
            c,
        ) ==> regex_compiles(c.pattern)),
    decreases items.len(),
{
    if items.len() > 0 {
        lemma_load_state_patterns_compile(dir, playlists, items.drop_last());
        if let Ok(st) = load_state(dir, playlists, items.drop_last()) {
            if let XmlItem::Open { name, attributes } = items.last() {
                lemma_rule_attrs_pattern_compiles(attributes@);
            }
            if let Ok(next) = item_step(dir, playlists, st, items.last()) {
                assert forall|i: int| 0 <= i < next.rules.len() implies regex_compiles(#[trigger] next.rules[i].pattern) by {
                    if i < st.rules.len() {
                        assert(regex_compiles(st.rules[i].pattern));
                    }
                }
            }
        }
    }
}

/// Every rule that loading yields has a pattern that compiles: the repaired
/// text of its `logPattern` attribute.
pub proof fn loaded_patterns_compile(file_path: Seq<char>, doc: Seq<char>, playlists: Seq<(String, String)>)
    ensures
        loaded_rules(file_path, doc, playlists) matches Ok(rules) ==> all_compile(rules),
{
    if let Some(items) = xml_items(doc) {
        lemma_load_state_patterns_compile(rule_dir(file_path), playlists, items);
    }
}

} // verus!

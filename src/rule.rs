//! Rules as they stand after loading: a pattern, where to play, and what.
use crate::pattern::Pattern;
use vstd::prelude::*;

verus! {

/// Where a sound file entry points.
pub enum SoundSource {
    /// One file.
    Path(String),
    /// The files a playlist lists, in order, resolved when the rule was loaded.
    Playlist(Vec<String>),
}

/// One file (or playlist) a rule may play.
pub struct SoundFile {
    pub source: SoundSource,
    /// Selection weight; selection is uniform and does not read it.
    pub weight: usize,
    /// Volume adjustment, as written in the rule file.
    pub volume: String,
    pub random_balance: bool,
    /// Stereo balance adjustment, as written in the rule file.
    pub balance: String,
    pub delay: usize,
}

/// What a looping rule does to its channel's loop.
#[derive(PartialEq, Eq, Structural, Clone, Copy, Debug)]
pub enum LoopMode {
    Start,
    Stop,
}

/// One loaded rule.
pub struct RuleEntry {
    pub pattern: Pattern,
    pub channel: Option<String>,
    pub loop_mode: Option<LoopMode>,
    pub concurency: Option<usize>,
    pub timeout: Option<usize>,
    pub probability: Option<usize>,
    pub delay: Option<usize>,
    pub halt_on_match: bool,
    pub random_balance: bool,
    pub files: Vec<SoundFile>,
}

/// A sound file entry in mathematical terms.
pub enum SourceView {
    Path(Seq<char>),
    Playlist(Seq<Seq<char>>),
}

pub struct FileView {
    pub source: SourceView,
    pub weight: usize,
    pub volume: Seq<char>,
    pub random_balance: bool,
    pub balance: Seq<char>,
    pub delay: usize,
}

/// A rule in mathematical terms; `pattern` is the source of its compiled pattern.
pub struct RuleView {
    pub pattern: Seq<char>,
    pub channel: Option<Seq<char>>,
    pub loop_mode: Option<LoopMode>,
    pub concurency: Option<usize>,
    pub timeout: Option<usize>,
    pub probability: Option<usize>,
    pub delay: Option<usize>,
    pub halt_on_match: bool,
    pub random_balance: bool,
    pub files: Seq<FileView>,
}

pub open spec fn opt_text(o: Option<String>) -> Option<Seq<char>> {
    match o {
        Some(s) => Some(s@),
        None => None,
    }
}

impl View for SoundSource {
    type V = SourceView;

    open spec fn view(&self) -> SourceView {
        match self {
            SoundSource::Path(p) => SourceView::Path(p@),
            SoundSource::Playlist(v) => SourceView::Playlist(v@.map_values(|s: String| s@)),
        }
    }
}

impl View for SoundFile {
    type V = FileView;

    open spec fn view(&self) -> FileView {
        FileView {
            source: self.source@,
            weight: self.weight,
            volume: self.volume@,
            random_balance: self.random_balance,
            balance: self.balance@,
            delay: self.delay,
        }
    }
}

impl View for RuleEntry {
    type V = RuleView;

    open spec fn view(&self) -> RuleView {
        RuleView {
            pattern: self.pattern.source(),
            channel: opt_text(self.channel),
            loop_mode: self.loop_mode,
            concurency: self.concurency,
            timeout: self.timeout,
            probability: self.probability,
            delay: self.delay,
            halt_on_match: self.halt_on_match,
            random_balance: self.random_balance,
            files: self.files@.map_values(|f: SoundFile| f@),
        }
    }
}

} // verus!

//! The sound engine: the channel registry, the per-line scheduling decision,
//! the maintenance tick and volume control.
//!
//! Playback itself happens outside: every decision comes back as a list of
//! [`Command`]s for the audio side to carry out, and the random numbers the
//! decisions need come in as [`Draw`]s, one per rule.
use crate::pattern::regex_finds;
use crate::rule::{LoopMode, RuleEntry};
use vstd::prelude::*;

verus! {

/// The channel that rules without a channel of their own play on.
pub const MISC_CHANNEL: &'static str = "misc";

/// The channel name that `set_volume` reads as the master volume.
pub const ALL_CHANNELS: &'static str = "all";

/// Volumes are in thousandths; this is full volume.
pub const FULL_VOLUME: u32 = 1000;

/// The random numbers one rule may use while a line is processed.
#[derive(PartialEq, Eq, Structural, Clone, Copy, Debug)]
pub struct Draw {
    /// Compared against the rule's probability threshold.
    pub gate: u32,
    /// Reduced modulo the number of files to choose one.
    pub pick: usize,
}

/// What the audio side is to do. `rule` and `file` index the rule list and
/// that rule's files; `channel` indexes the channel registry.
#[derive(PartialEq, Eq, Structural, Clone, Copy, Debug)]
pub enum Command {
    /// Stop the channel's loop, if any, and loop the given file in its place.
    StartLoop { channel: usize, rule: usize, file: usize },
    /// Stop the channel's loop, if any.
    StopLoop { channel: usize },
    /// Play the given file once on the channel.
    OneShot { channel: usize, rule: usize, file: usize },
}

/// The rule and file a channel's loop came from.
#[derive(PartialEq, Eq, Structural, Clone, Copy, Debug)]
pub struct LoopSource {
    pub rule: usize,
    pub file: usize,
}

/// The playback state of one channel.
#[derive(PartialEq, Eq, Structural, Clone, Copy, Debug)]
pub struct Channel {
    /// Channel volume, in thousandths.
    pub volume: u32,
    /// One-shots started and not yet reaped.
    pub one_shots: usize,
    /// Where the running loop came from.
    pub looping: Option<LoopSource>,
}

impl Channel {
    pub open spec fn active(&self) -> int {
        self.one_shots + if self.looping is Some { 1int } else { 0int }
    }

    /// Whether one more one-shot can be counted.
    pub open spec fn has_room(&self) -> bool {
        self.one_shots + 1 < usize::MAX
    }

    pub open spec fn new_spec() -> Channel {
        Channel { volume: FULL_VOLUME, one_shots: 0, looping: None }
    }

    /// A channel at full volume with nothing playing.
    pub fn new() -> (r: Channel)
        ensures
            r == Channel::new_spec(),
    {
        Channel { volume: FULL_VOLUME, one_shots: 0, looping: None }
    }

    /// One-shots plus the loop, if one runs.
    pub fn active_count(&self) -> (r: usize)
        requires
            self.one_shots < usize::MAX,
        ensures
            r == self.active(),
    {
        if self.looping.is_some() {
            self.one_shots + 1
        } else {
            self.one_shots
        }
    }
}

pub open spec fn names_of(names: Seq<String>) -> Seq<Seq<char>> {
    names.map_values(|s: String| s@)
}

/// The position of `n` in a list of distinct names.
pub open spec fn name_index(names: Seq<Seq<char>>, n: Seq<char>) -> int {
    choose|j: int| 0 <= j < names.len() && names[j] == n
}

pub open spec fn distinct(names: Seq<Seq<char>>) -> bool {
    forall|a: int, b: int|
        0 <= a < names.len() && 0 <= b < names.len() && a != b ==> names[a] != names[b]
}

/// The index of the file chosen with `draw` among the rule's files.
pub open spec fn picked(rule: RuleEntry, draw: Draw) -> int {
    draw.pick as int % rule.files@.len() as int
}

/// The rule's concurrency ceiling; unbounded when it has none.
pub open spec fn ceiling(rule: RuleEntry) -> int {
    match rule.concurency {
        Some(c) => c as int,
        None => usize::MAX as int,
    }
}

/// Whether a matching rule may act: its probability threshold lies below the
/// draw, and the global active count does not exceed its ceiling.
pub open spec fn can_play(rule: RuleEntry, draw: Draw, global: usize) -> bool {
    &&& (rule.probability matches Some(p) ==> p < draw.gate)
    &&& (rule.concurency matches Some(c) ==> global <= c)
}

/// The channel a rule targets.
pub open spec fn target(names: Seq<Seq<char>>, rule: RuleEntry) -> int {
    match rule.channel {
        Some(n) => name_index(names, n@),
        None => 0,
    }
}

/// A plain one-shot: played when the rule has files and the channel is within
/// the rule's ceiling.
pub open spec fn one_shot_step(ch: Channel, rule: RuleEntry, i: int, c: int, draw: Draw) -> (
    Channel,
    Seq<Command>,
) {
    if rule.files@.len() > 0 && ch.active() <= ceiling(rule) && ch.has_room() {
        (
            Channel { one_shots: (ch.one_shots + 1) as usize, ..ch },
            seq![Command::OneShot { channel: c as usize, rule: i as usize, file: picked(rule, draw) as usize }],
        )
    } else {
        (ch, seq![])
    }
}

/// What rule `i`, having passed its gate, does to its target channel `c`.
pub open spec fn act(ch: Channel, rule: RuleEntry, i: int, c: int, draw: Draw) -> (
    Channel,
    Seq<Command>,
) {
    if rule.channel is Some && rule.loop_mode == Some(LoopMode::Start) {
        if rule.files@.len() > 0 {
            (
                Channel { looping: Some(LoopSource { rule: i as usize, file: picked(rule, draw) as usize }), ..ch },
                seq![Command::StartLoop { channel: c as usize, rule: i as usize, file: picked(rule, draw) as usize }],
            )
        } else {
            (Channel { looping: None, ..ch }, seq![Command::StopLoop { channel: c as usize }])
        }
    } else if rule.channel is Some && rule.loop_mode == Some(LoopMode::Stop) {
        let stopped = Channel { looping: None, ..ch };
        if rule.files@.len() > 0 && stopped.has_room() {
            (
                Channel { one_shots: (ch.one_shots + 1) as usize, ..stopped },
                seq![
                    Command::StopLoop { channel: c as usize },
                    Command::OneShot { channel: c as usize, rule: i as usize, file: picked(rule, draw) as usize },
                ],
            )
        } else {
            (stopped, seq![Command::StopLoop { channel: c as usize }])
        }
    } else {
        one_shot_step(ch, rule, i, c, draw)
    }
}

/// The effect of rule `i` alone on the channels, given whether it matched.
pub open spec fn rule_step(
    rules: Seq<RuleEntry>,
    matched: Seq<bool>,
    draws: Seq<Draw>,
    global: usize,
    names: Seq<Seq<char>>,
    chs: Seq<Channel>,
    i: int,
) -> (Seq<Channel>, Seq<Command>) {
    if matched[i] && can_play(rules[i], draws[i], global) {
        let c = target(names, rules[i]);
        let (ch, cmds) = act(chs[c], rules[i], i, c, draws[i]);
        (chs.update(c, ch), cmds)
    } else {
        (chs, seq![])
    }
}

/// Rules `i..` applied in order to one line: each matching rule passes its
/// gate or not, and a matching rule that halts ends the line.
pub open spec fn schedule(
    rules: Seq<RuleEntry>,
    matched: Seq<bool>,
    draws: Seq<Draw>,
    global: usize,
    names: Seq<Seq<char>>,
    chs: Seq<Channel>,
    i: int,
) -> (Seq<Channel>, Seq<Command>)
    decreases rules.len() - i,
{
    if i < 0 || i >= rules.len() {
        (chs, seq![])
    } else {
        let (chs1, cmds1) = rule_step(rules, matched, draws, global, names, chs, i);
        if matched[i] && rules[i].halt_on_match {
            (chs1, cmds1)
        } else {
            let (chs2, cmds2) = schedule(rules, matched, draws, global, names, chs1, i + 1);
            (chs2, cmds1 + cmds2)
        }
    }
}

/// The sum of the active counts of the channels.
pub open spec fn total_active(chs: Seq<Channel>) -> int
    decreases chs.len(),
{
    if chs.len() == 0 {
        0
    } else {
        total_active(chs.drop_last()) + chs.last().active()
    }
}

proof fn lemma_total_active_nonneg(chs: Seq<Channel>)
    ensures
        total_active(chs) >= 0,
    decreases chs.len(),
{
    if chs.len() > 0 {
        lemma_total_active_nonneg(chs.drop_last());
    }
}

/// Whether `rule` names the channel `n`.
pub open spec fn refers_to(rule: RuleEntry, n: Seq<char>) -> bool {
    rule.channel matches Some(m) && m@ == n
}

/// Whether each rule's pattern matches `line`, in rule order.
pub open spec fn line_matches(rules: Seq<RuleEntry>, line: Seq<char>) -> Seq<bool> {
    Seq::new(rules.len(), |i: int| regex_finds(rules[i].pattern.source(), line))
}

/// A channel after a maintenance tick found `live` of its one-shots still playing.
pub open spec fn reaped(ch: Channel, live: usize) -> Channel {
    Channel { one_shots: if live < ch.one_shots { live } else { ch.one_shots }, ..ch }
}

/// Whether `rule` passes its gate with `draw` while `global` sounds are active.
pub fn gate_open(rule: &RuleEntry, draw: Draw, global: usize) -> (r: bool)
    ensures
        r == can_play(*rule, draw, global),
{
    let mut open = true;
    if let Some(p) = rule.probability {
        open = open && p < draw.gate as usize;
    }
    if let Some(c) = rule.concurency {
        open = open && global <= c;
    }
    open
}

fn pick_file(rule: &RuleEntry, draw: Draw) -> (r: usize)
    requires
        rule.files@.len() > 0,
    ensures
        r == picked(*rule, draw),
        r < rule.files@.len(),
{
    draw.pick % rule.files.len()
}

/// Plays rule `i` on channel `c` as a plain one-shot.
pub fn one_shot(ch: Channel, rule: &RuleEntry, i: usize, c: usize, draw: Draw) -> (r: (
    Channel,
    Vec<Command>,
))
    requires
        ch.one_shots < usize::MAX,
    ensures
        (r.0, r.1@) == one_shot_step(ch, *rule, i as int, c as int, draw),
{
    let ceiling_of_rule = match rule.concurency {
        Some(n) => n,
        None => usize::MAX,
    };
    if rule.files.len() > 0 && ch.active_count() <= ceiling_of_rule && ch.one_shots < usize::MAX
        - 1 {
        let file = pick_file(rule, draw);
        let mut cmds = Vec::new();
        cmds.push(Command::OneShot { channel: c, rule: i, file });
        proof {
            assert(cmds@ =~= seq![Command::OneShot { channel: c, rule: i, file }]);
        }
        (Channel { one_shots: ch.one_shots + 1, ..ch }, cmds)
    } else {
        let cmds: Vec<Command> = Vec::new();
        proof {
            assert(cmds@ =~= Seq::<Command>::empty());
        }
        (ch, cmds)
    }
}

/// What rule `i`, having passed its gate, does to channel `c`.
pub fn act_on(ch: Channel, rule: &RuleEntry, i: usize, c: usize, draw: Draw) -> (r: (
    Channel,
    Vec<Command>,
))
    requires
        ch.one_shots < usize::MAX,
    ensures
        (r.0, r.1@) == act(ch, *rule, i as int, c as int, draw),
        r.0.one_shots < usize::MAX,
{
    if rule.channel.is_some() && rule.loop_mode == Some(LoopMode::Start) {
        let mut cmds = Vec::new();
        if rule.files.len() > 0 {
            let file = pick_file(rule, draw);
            cmds.push(Command::StartLoop { channel: c, rule: i, file });
            proof {
                assert(cmds@ =~= seq![Command::StartLoop { channel: c, rule: i, file }]);
            }
            (Channel { looping: Some(LoopSource { rule: i, file }), ..ch }, cmds)
        } else {
            cmds.push(Command::StopLoop { channel: c });
            proof {
                assert(cmds@ =~= seq![Command::StopLoop { channel: c }]);
            }
            (Channel { looping: None, ..ch }, cmds)
        }
    } else if rule.channel.is_some() && rule.loop_mode == Some(LoopMode::Stop) {
        let stopped = Channel { looping: None, ..ch };
        let mut cmds = Vec::new();
        cmds.push(Command::StopLoop { channel: c });
        if rule.files.len() > 0 && stopped.one_shots < usize::MAX - 1 {
            let file = pick_file(rule, draw);
            cmds.push(Command::OneShot { channel: c, rule: i, file });
            proof {
                assert(cmds@ =~= seq![
                    Command::StopLoop { channel: c },
                    Command::OneShot { channel: c, rule: i, file },
                ]);
            }
            (Channel { one_shots: ch.one_shots + 1, ..stopped }, cmds)
        } else {
            proof {
                assert(cmds@ =~= seq![Command::StopLoop { channel: c }]);
            }
            (stopped, cmds)
        }
    } else {
        one_shot(ch, rule, i, c, draw)
    }
}

/// Finds `name` in a list of names.
pub fn find_name(names: &Vec<String>, name: &String) -> (r: Option<usize>)
    ensures
        r is None <==> !names_of(names@).contains(name@),
        r matches Some(j) ==> j < names@.len() && names@[j as int]@ == name@,
{
    let mut j: usize = 0;
    while j < names.len()
        invariant
            j <= names@.len(),
            forall|k: int| 0 <= k < j ==> names@[k]@ != name@,
        decreases names@.len() - j,
    {
        if names[j] == *name {
            proof {
                assert(names_of(names@)[j as int] == name@);
            }
            return Some(j);
        }
        j += 1;
    }
    proof {
        if names_of(names@).contains(name@) {
            let k = choose|k: int| 0 <= k < names_of(names@).len() && names_of(names@)[k] == name@;
            assert(names@[k]@ == name@);
        }
    }
    None
}

proof fn lemma_name_index(names: Seq<Seq<char>>, j: int)
    requires
        distinct(names),
        0 <= j < names.len(),
    ensures
        name_index(names, names[j]) == j,
{
    let n = names[j];
    assert(0 <= j < names.len() && names[j] == n);
    let k = name_index(names, n);
    assert(0 <= k < names.len() && names[k] == n);
}

/// The engine: rules, channel registry, master volume and the global active count.
pub struct SoundManager {
    pub rules: Vec<RuleEntry>,
    /// Channel names; `names[j]` names `channels[j]`, and `names[0]` is the default channel.
    pub names: Vec<String>,
    pub channels: Vec<Channel>,
    /// Master volume, in thousandths.
    pub total_volume: u32,
    /// Sum of the channels' active counts at the last maintenance tick.
    pub concurency: usize,
}

impl SoundManager {
    pub open spec fn wf(&self) -> bool {
        &&& self.names@.len() == self.channels@.len()
        &&& self.names@.len() > 0
        &&& self.names@[0]@ == MISC_CHANNEL@
        &&& distinct(names_of(self.names@))
        &&& forall|j: int| 0 <= j < self.channels@.len() ==> (#[trigger] self.channels@[j]).one_shots < usize::MAX
        &&& forall|i: int|
            0 <= i < self.rules@.len() ==> ((#[trigger] self.rules@[i]).channel matches Some(n)
                ==> names_of(self.names@).contains(n@))
    }

    /// An engine over `rules`, with the default channel and one channel for
    /// every name a rule refers to, in order of first mention, all at full
    /// volume with nothing playing.
    pub fn new(rules: Vec<RuleEntry>) -> (r: SoundManager)
        ensures
            r.wf(),
            r.rules == rules,
            r.total_volume == FULL_VOLUME,
            r.concurency == 0,
            forall|n: Seq<char>|
                names_of(r.names@).contains(n) <==> (n == MISC_CHANNEL@ || exists|i: int|
                    0 <= i < rules@.len() && refers_to(#[trigger] rules@[i], n)),
            forall|j: int|
                0 <= j < r.channels@.len() ==> #[trigger] r.channels@[j] == Channel::new_spec(),
    {
        let mut names: Vec<String> = Vec::new();
        let mut channels: Vec<Channel> = Vec::new();
        names.push(MISC_CHANNEL.to_owned());
        channels.push(Channel::new());
        proof {
            assert(names_of(names@) =~= seq![MISC_CHANNEL@]);
            assert forall|n: Seq<char>| names_of(names@).contains(n) <==> n == MISC_CHANNEL@ by {
                if n == MISC_CHANNEL@ {
                    assert(names_of(names@)[0] == n);
                }
            }
        }
        let mut i: usize = 0;
        while i < rules.len()
            invariant
                i <= rules@.len(),
                names@.len() == channels@.len(),
                names@.len() > 0,
                names@[0]@ == MISC_CHANNEL@,
                distinct(names_of(names@)),
                forall|j: int| 0 <= j < channels@.len() ==> #[trigger] channels@[j] == Channel::new_spec(),
                forall|n: Seq<char>|
                    names_of(names@).contains(n) <==> (n == MISC_CHANNEL@ || exists|k: int|
                        0 <= k < i && refers_to(#[trigger] rules@[k], n)),
            decreases rules@.len() - i,
        {
            let ghost old_names = names_of(names@);
            proof {
                assert forall|n: Seq<char>|
                    (exists|k: int| 0 <= k < i + 1 && refers_to(#[trigger] rules@[k], n)) <==> ((exists|k: int|
                        0 <= k < i && refers_to(#[trigger] rules@[k], n)) || refers_to(rules@[i as int], n)) by {
                    if exists|k: int| 0 <= k < i + 1 && refers_to(#[trigger] rules@[k], n) {
                        let k = choose|k: int| 0 <= k < i + 1 && refers_to(#[trigger] rules@[k], n);
                        if k < i {
                            assert(0 <= k < i && refers_to(rules@[k], n));
                        }
                    }
                }
            }
            if let Some(n) = &rules[i].channel {
                let found = find_name(&names, n);
                if found.is_none() {
                    names.push(n.clone());
                    channels.push(Channel::new());
                    proof {
                        assert(names_of(names@) =~= old_names.push(n@));
                        assert forall|a: int, b: int|
                            0 <= a < names_of(names@).len() && 0 <= b < names_of(names@).len() && a != b
                                implies names_of(names@)[a] != names_of(names@)[b] by {
                            if a < old_names.len() && b < old_names.len() {
                                assert(old_names[a] != old_names[b]);
                            } else if a < old_names.len() {
                                assert(old_names.contains(old_names[a]));
                            } else {
                                assert(old_names.contains(old_names[b]));
                            }
                        }
                        assert forall|x: Seq<char>|
                            names_of(names@).contains(x) <==> (old_names.contains(x) || refers_to(
                                rules@[i as int],
                                x,
                            )) by {
                            if names_of(names@).contains(x) {
                                let k = choose|k: int| 0 <= k < names_of(names@).len() && names_of(names@)[k] == x;
                                if k < old_names.len() {
                                    assert(old_names[k] == x);
                                }
                            }
                            if old_names.contains(x) {
                                let k = choose|k: int| 0 <= k < old_names.len() && old_names[k] == x;
                                assert(names_of(names@)[k] == x);
                            }
                            if refers_to(rules@[i as int], x) {
                                assert(names_of(names@)[old_names.len() as int] == x);
                            }
                        }
                    }
                } else {
                    proof {
                        let j = found->Some_0;
                        assert(old_names[j as int] == n@);
                        assert forall|x: Seq<char>|
                            names_of(names@).contains(x) <==> (old_names.contains(x) || refers_to(
                                rules@[i as int],
                                x,
                            )) by {
                            if refers_to(rules@[i as int], x) {
                                assert(old_names.contains(x));
                            }
                        }
                    }
                }
            }
            proof {
                if rules@[i as int].channel is None {
                    assert(names_of(names@) == old_names);
                }
                assert forall|x: Seq<char>|
                    names_of(names@).contains(x) <==> (old_names.contains(x) || refers_to(rules@[i as int], x)) by {
                    if rules@[i as int].channel is None {
                        assert(!refers_to(rules@[i as int], x));
                    }
                }
                assert forall|x: Seq<char>|
                    names_of(names@).contains(x) <==> (x == MISC_CHANNEL@ || exists|k: int|
                        0 <= k < i + 1 && refers_to(#[trigger] rules@[k], x)) by {
                    assert(old_names.contains(x) <==> (x == MISC_CHANNEL@ || exists|k: int|
                        0 <= k < i && refers_to(#[trigger] rules@[k], x)));
                }
            }
            i += 1;
        }
        let r = SoundManager { rules, names, channels, total_volume: FULL_VOLUME, concurency: 0 };
        proof {
            assert forall|i: int|
                0 <= i < r.rules@.len() implies ((#[trigger] r.rules@[i]).channel matches Some(n)
                    ==> names_of(r.names@).contains(n@)) by {
                if let Some(n) = r.rules@[i].channel {
                    assert(refers_to(rules@[i], n@));
                }
            }
        }
        r
    }

    /// Processes one log line: matches every rule's pattern against it, then
    /// applies the rules as [`SoundManager::apply_matches`] does.
    pub fn process_log(&mut self, log: &str, draws: &Vec<Draw>) -> (r: Vec<Command>)
        requires
            old(self).wf(),
            draws@.len() == old(self).rules@.len(),
        ensures
            final(self).wf(),
            final(self).rules == old(self).rules,
            final(self).names == old(self).names,
            final(self).total_volume == old(self).total_volume,
            final(self).concurency == old(self).concurency,
            (final(self).channels@, r@) == schedule(
                old(self).rules@,
                line_matches(old(self).rules@, log@),
                draws@,
                old(self).concurency,
                names_of(old(self).names@),
                old(self).channels@,
                0,
            ),
    {
        let mut matched: Vec<bool> = Vec::new();
        let mut i: usize = 0;
        while i < self.rules.len()
            invariant
                i <= self.rules@.len(),
                matched@ == line_matches(self.rules@, log@).take(i as int),
            decreases self.rules@.len() - i,
        {
            matched.push(self.rules[i].pattern.is_match(log));
            proof {
                assert(line_matches(self.rules@, log@).take(i + 1) =~= line_matches(self.rules@, log@).take(i as int).push(
                    regex_finds(self.rules@[i as int].pattern.source(), log@),
                ));
            }
            i += 1;
        }
        proof {
            assert(line_matches(self.rules@, log@).take(i as int) =~= line_matches(self.rules@, log@));
        }
        self.apply_matches(&matched, draws)
    }

    /// The maintenance tick: `live[j]` is how many of channel `j`'s one-shots
    /// are still playing. Each channel keeps no more one-shots than that, and
    /// the global active count becomes the sum of the channels' active counts
    /// (saturating at the largest `usize`).
    pub fn maintain(&mut self, live: &Vec<usize>)
        requires
            old(self).wf(),
            live@.len() == old(self).channels@.len(),
        ensures
            final(self).wf(),
            final(self).rules == old(self).rules,
            final(self).names == old(self).names,
            final(self).total_volume == old(self).total_volume,
            final(self).channels@.len() == old(self).channels@.len(),
            forall|j: int|
                0 <= j < final(self).channels@.len() ==> #[trigger] final(self).channels@[j] == reaped(
                    old(self).channels@[j],
                    live@[j],
                ),
            final(self).concurency == if total_active(final(self).channels@) <= usize::MAX {
                total_active(final(self).channels@)
            } else {
                usize::MAX as int
            },
    {
        let mut total: usize = 0;
        let mut j: usize = 0;
        while j < self.channels.len()
            invariant
                self.wf(),
                self.rules == old(self).rules,
                self.names == old(self).names,
                self.total_volume == old(self).total_volume,
                self.channels@.len() == old(self).channels@.len(),
                live@.len() == self.channels@.len(),
                j <= self.channels@.len(),
                forall|k: int| 0 <= k < j ==> #[trigger] self.channels@[k] == reaped(old(self).channels@[k], live@[k]),
                forall|k: int| j <= k < self.channels@.len() ==> #[trigger] self.channels@[k] == old(self).channels@[k],
                total == if total_active(self.channels@.take(j as int)) <= usize::MAX {
                    total_active(self.channels@.take(j as int))
                } else {
                    usize::MAX as int
                },
            decreases self.channels@.len() - j,
        {
            let ch = self.channels[j];
            let one_shots = if live[j] < ch.one_shots {
                live[j]
            } else {
                ch.one_shots
            };
            let kept = Channel { one_shots, ..ch };
            let ghost pre = self.channels@.take(j as int);
            self.channels.set(j, kept);
            let n = kept.active_count();
            proof {
                assert(self.channels@.take(j + 1).drop_last() =~= pre);
                assert(self.channels@.take(j + 1).last() == kept);
                lemma_total_active_nonneg(pre);
            }
            total = if total <= usize::MAX - n {
                total + n
            } else {
                usize::MAX
            };
            j += 1;
        }
        proof {
            assert(self.channels@.take(j as int) =~= self.channels@);
        }
        self.concurency = total;
    }

    /// Sets the master volume when `channel_name` is `all`, else the volume of
    /// the channel of that name; an unknown name changes nothing.
    pub fn set_volume(&mut self, channel_name: &str, volume: u32)
        requires
            old(self).wf(),
        ensures
            final(self).wf(),
            final(self).rules == old(self).rules,
            final(self).names == old(self).names,
            final(self).concurency == old(self).concurency,
            channel_name@ == ALL_CHANNELS@ ==> final(self).total_volume == volume && final(self).channels
                == old(self).channels,
            channel_name@ != ALL_CHANNELS@ ==> final(self).total_volume == old(self).total_volume
                && final(self).channels@ == if names_of(old(self).names@).contains(channel_name@) {
                let j = name_index(names_of(old(self).names@), channel_name@);
                old(self).channels@.update(j, Channel { volume, ..old(self).channels@[j] })
            } else {
                old(self).channels@
            },
    {
        let name = channel_name.to_owned();
        if name == ALL_CHANNELS.to_owned() {
            self.total_volume = volume;
        } else {
            match find_name(&self.names, &name) {
                Some(j) => {
                    proof {
                        assert(names_of(self.names@)[j as int] == name@);
                        lemma_name_index(names_of(self.names@), j as int);
                    }
                    let ch = self.channels[j];
                    self.channels.set(j, Channel { volume, ..ch });
                },
                None => {},
            }
        }
    }

    /// The scale applied to channel `j`'s playback, in millionths: its own
    /// volume times the master volume.
    pub fn effective_volume(&self, j: usize) -> (r: u64)
        requires
            j < self.channels@.len(),
        ensures
            r == self.channels@[j as int].volume as int * self.total_volume as int,
    {
        proof {
            assert(self.channels@[j as int].volume as int * self.total_volume as int <= u32::MAX as int * u32::MAX as int) by (nonlinear_arith)
                requires self.channels@[j as int].volume <= u32::MAX, self.total_volume <= u32::MAX;
        }
        self.channels[j].volume as u64 * self.total_volume as u64
    }

    /// The channel rule `i` targets: its own channel, or the default one.
    fn target_index(&self, i: usize) -> (c: usize)
        requires
            self.wf(),
            i < self.rules@.len(),
        ensures
            c == target(names_of(self.names@), self.rules@[i as int]),
            c < self.channels@.len(),
    {
        match &self.rules[i].channel {
            Some(n) => {
                let found = find_name(&self.names, n);
                match found {
                    Some(j) => {
                        proof {
                            assert(names_of(self.names@)[j as int] == n@);
                            lemma_name_index(names_of(self.names@), j as int);
                        }
                        j
                    },
                    None => {
                        proof {
                            assert(names_of(self.names@).contains(n@));
                        }
                        0
                    },
                }
            },
            None => 0,
        }
    }

    /// Applies the rules to one line whose match results are `matched`, in
    /// rule order: each matching rule that passes its gate acts on its
    /// channel, and a matching rule that halts ends the line.
    pub fn apply_matches(&mut self, matched: &Vec<bool>, draws: &Vec<Draw>) -> (r: Vec<Command>)
        requires
            old(self).wf(),
            matched@.len() == old(self).rules@.len(),
            draws@.len() == old(self).rules@.len(),
        ensures
            final(self).wf(),
            final(self).rules == old(self).rules,
            final(self).names == old(self).names,
            final(self).total_volume == old(self).total_volume,
            final(self).concurency == old(self).concurency,
            (final(self).channels@, r@) == schedule(
                old(self).rules@,
                matched@,
                draws@,
                old(self).concurency,
                names_of(old(self).names@),
                old(self).channels@,
                0,
            ),
    {
        let ghost start = self.channels@;
        let ghost names = names_of(self.names@);
        let mut cmds: Vec<Command> = Vec::new();
        let mut i: usize = 0;
        while i < self.rules.len()
            invariant
                self.wf(),
                self.rules == old(self).rules,
                self.names == old(self).names,
                self.total_volume == old(self).total_volume,
                self.concurency == old(self).concurency,
                names == names_of(self.names@),
                start == old(self).channels@,
                matched@.len() == self.rules@.len(),
                draws@.len() == self.rules@.len(),
                i <= self.rules@.len(),
                schedule(self.rules@, matched@, draws@, self.concurency, names, start, 0) == (
                    schedule(self.rules@, matched@, draws@, self.concurency, names, self.channels@, i as int).0,
                    cmds@ + schedule(self.rules@, matched@, draws@, self.concurency, names, self.channels@, i as int).1,
                ),
            decreases self.rules@.len() - i,
        {
            let ghost chs = self.channels@;
            let ghost before = cmds@;
            let ghost step = rule_step(self.rules@, matched@, draws@, self.concurency, names, chs, i as int);
            if matched[i] && gate_open(&self.rules[i], draws[i], self.concurency) {
                let c = self.target_index(i);
                let (ch, more) = act_on(self.channels[c], &self.rules[i], i, c, draws[i]);
                self.channels.set(c, ch);
                let mut k: usize = 0;
                while k < more.len()
                    invariant
                        k <= more@.len(),
                        cmds@ == before + more@.take(k as int),
                    decreases more@.len() - k,
                {
                    cmds.push(more[k]);
                    proof {
                        assert(more@.take(k as int + 1) =~= more@.take(k as int).push(more@[k as int]));
                    }
                    k += 1;
                }
                proof {
                    assert(more@.take(more@.len() as int) =~= more@);
                    assert(self.channels@ =~= step.0);
                    assert(names_of(self.names@) =~= names);
                }
            } else {
                proof {
                    assert(cmds@ =~= before + step.1);
                }
            }
            proof {
                assert(self.channels@ == step.0);
                assert(cmds@ == before + step.1);
            }
            if matched[i] && self.rules[i].halt_on_match {
                return cmds;
            }
            proof {
                let rest = schedule(self.rules@, matched@, draws@, self.concurency, names, step.0, i + 1);
                assert(before + (step.1 + rest.1) =~= (before + step.1) + rest.1);
            }
            i += 1;
        }
        proof {
            assert(cmds@ + Seq::<Command>::empty() =~= cmds@);
        }
        cmds
    }
}


proof fn lemma_schedule_prefix(
    rules: Seq<RuleEntry>,
    matched: Seq<bool>,
    draws: Seq<Draw>,
    global: usize,
    names: Seq<Seq<char>>,
    chs: Seq<Channel>,
    h: int,
    i: int,
)
    requires
        0 <= i <= h < rules.len(),
        matched.len() == rules.len(),
        draws.len() == rules.len(),
        matched[h],
        rules[h].halt_on_match,
    ensures
        schedule(rules, matched, draws, global, names, chs, i) == schedule(
            rules.take(h + 1),
            matched.take(h + 1),
            draws.take(h + 1),
            global,
            names,
            chs,
            i,
        ),
    decreases h - i,
{
    let (r2, m2, d2) = (rules.take(h + 1), matched.take(h + 1), draws.take(h + 1));
    assert(r2[i] == rules[i] && m2[i] == matched[i] && d2[i] == draws[i]);
    assert(rule_step(rules, matched, draws, global, names, chs, i) == rule_step(
        r2,
        m2,
        d2,
        global,
        names,
        chs,
        i,
    ));
    if i < h {
        let next = rule_step(rules, matched, draws, global, names, chs, i).0;
        lemma_schedule_prefix(rules, matched, draws, global, names, next, h, i + 1);
    }
}

/// Rules act in rule order, and once a rule that halts has matched, no later
/// rule acts on the line: the outcome is that of the rules up to and
/// including the first matching rule that halts.
pub proof fn halting_rule_ends_line(
    rules: Seq<RuleEntry>,
    matched: Seq<bool>,
    draws: Seq<Draw>,
    global: usize,
    names: Seq<Seq<char>>,
    chs: Seq<Channel>,
    h: int,
)
    requires
        0 <= h < rules.len(),
        matched.len() == rules.len(),
        draws.len() == rules.len(),
        matched[h],
        rules[h].halt_on_match,
    ensures
        schedule(rules, matched, draws, global, names, chs, 0) == schedule(
            rules.take(h + 1),
            matched.take(h + 1),
            draws.take(h + 1),
            global,
            names,
            chs,
            0,
        ),
{
    lemma_schedule_prefix(rules, matched, draws, global, names, chs, h, 0);
}

/// A one-shot rule with ceiling `cap`, on a channel with no loop, adds a
/// one-shot only while the channel holds at most `cap` of them: once it holds
/// more it leaves the channel as it is, so from an idle channel the rule
/// alone never takes it past `cap + 1` one-shots.
pub proof fn ceiling_limits_one_shots(ch: Channel, rule: RuleEntry, cap: usize, i: int, c: int, draw: Draw)
    requires
        rule.loop_mode is None,
        rule.concurency == Some(cap),
        ch.looping is None,
    ensures
        ch.one_shots > cap ==> act(ch, rule, i, c, draw) == (ch, Seq::<Command>::empty()),
        ch.one_shots <= cap ==> act(ch, rule, i, c, draw).0.one_shots <= cap + 1,
        act(ch, rule, i, c, draw).0.looping is None,
{
}

/// Stopping a loop leaves the channel without one, whatever ran before (in
/// particular a loop just started by another rule); a stop rule with files
/// also starts exactly one one-shot.
pub proof fn stop_leaves_no_loop(ch: Channel, start: RuleEntry, stop: RuleEntry, i: int, j: int, c: int, d1: Draw, d2: Draw)
    requires
        start.channel is Some,
        start.loop_mode == Some(LoopMode::Start),
        stop.channel is Some,
        stop.loop_mode == Some(LoopMode::Stop),
    ensures
        ({
            let started = act(ch, start, i, c, d1).0;
            let (stopped, cmds) = act(started, stop, j, c, d2);
            &&& stopped.looping is None
            &&& stop.files@.len() > 0 && started.has_room() ==> stopped.one_shots == started.one_shots + 1
                && cmds == seq![
                Command::StopLoop { channel: c as usize },
                Command::OneShot { channel: c as usize, rule: j as usize, file: picked(stop, d2) as usize },
            ]
            &&& stop.files@.len() == 0 ==> stopped.one_shots == started.one_shots && cmds == seq![
                Command::StopLoop { channel: c as usize },
            ]
        }),
{
}

} // verus!

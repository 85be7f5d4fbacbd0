use soundsense::loader::{load_rules, LoadError};
use soundsense::manager::{Command, Draw, SoundManager, FULL_VOLUME};
use soundsense::pattern::LoaderPatterns;
use soundsense::rule::{LoopMode, RuleEntry, SoundSource};

fn patterns() -> LoaderPatterns {
    LoaderPatterns::new().expect("the loader's expressions compile")
}

fn rules_of(doc: &str) -> Vec<RuleEntry> {
    match load_rules(&patterns(), "pack/rules.xml", doc, &Vec::new()) {
        Ok(rules) => rules,
        Err(_) => panic!("rule file should load"),
    }
}

fn draws(n: usize) -> Vec<Draw> {
    vec![Draw { gate: 0, pick: 0 }; n]
}

fn channel_index(m: &SoundManager, name: &str) -> usize {
    m.names.iter().position(|n| n == name).expect("channel exists")
}

#[test]
fn strike_plays_one_shot_on_combat() {
    let rules = rules_of(
        r#"<sounds><sound logPattern="You strike" channel="combat"><soundFile fileName="hit1.ogg"/></sound></sounds>"#,
    );
    assert_eq!(rules.len(), 1);
    match &rules[0].files[0].source {
        SoundSource::Path(p) => assert_eq!(p, "pack/hit1.ogg"),
        SoundSource::Playlist(_) => panic!("a plain file was expected"),
    }
    let mut m = SoundManager::new(rules);
    let combat = channel_index(&m, "combat");
    let cmds = m.process_log("You strike the goblin", &draws(1));
    assert_eq!(cmds, vec![Command::OneShot { channel: combat, rule: 0, file: 0 }]);
    assert_eq!(m.channels[combat].one_shots, 1);
    assert!(m.process_log("The goblin strikes you", &draws(1)).is_empty());
}

#[test]
fn halting_rule_hides_later_rules() {
    let rules = rules_of(
        r#"<sounds>
            <sound logPattern="goblin" channel="a" haltOnMatch="true"><soundFile fileName="one.ogg"/></sound>
            <sound logPattern="goblin" channel="b"><soundFile fileName="two.ogg"/></sound>
        </sounds>"#,
    );
    let mut m = SoundManager::new(rules);
    let a = channel_index(&m, "a");
    let b = channel_index(&m, "b");
    let cmds = m.process_log("a goblin", &draws(2));
    assert_eq!(cmds, vec![Command::OneShot { channel: a, rule: 0, file: 0 }]);
    assert_eq!(m.channels[b].one_shots, 0);
}

#[test]
fn rules_act_in_document_order_without_halt() {
    let rules = rules_of(
        r#"<sounds>
            <sound logPattern="goblin" channel="a"><soundFile fileName="one.ogg"/></sound>
            <sound logPattern="goblin" channel="b"><soundFile fileName="two.ogg"/></sound>
        </sounds>"#,
    );
    let mut m = SoundManager::new(rules);
    let a = channel_index(&m, "a");
    let b = channel_index(&m, "b");
    let cmds = m.process_log("a goblin", &draws(2));
    assert_eq!(
        cmds,
        vec![
            Command::OneShot { channel: a, rule: 0, file: 0 },
            Command::OneShot { channel: b, rule: 1, file: 0 },
        ]
    );
}

#[test]
fn master_and_channel_volume_multiply() {
    let rules = rules_of(
        r#"<sounds><sound logPattern="x" channel="combat"><soundFile fileName="a.ogg"/></sound></sounds>"#,
    );
    let mut m = SoundManager::new(rules);
    m.set_volume("all", 500);
    m.set_volume("combat", 200);
    let combat = channel_index(&m, "combat");
    let misc = channel_index(&m, "misc");
    assert_eq!(m.effective_volume(combat), 200 * 500);
    assert_eq!(m.effective_volume(misc), 1000 * 500);
    m.set_volume("nowhere", 7);
    assert_eq!(m.effective_volume(combat), 200 * 500);
    assert_eq!(m.total_volume, 500);
}

#[test]
fn ceiling_stops_one_shots() {
    let rules = rules_of(
        r#"<sounds><sound logPattern="hit" concurency="1"><soundFile fileName="a.ogg"/></sound></sounds>"#,
    );
    let mut m = SoundManager::new(rules);
    let misc = channel_index(&m, "misc");
    assert_eq!(misc, 0);
    assert_eq!(m.process_log("hit", &draws(1)).len(), 1);
    assert_eq!(m.process_log("hit", &draws(1)).len(), 1);
    assert!(m.process_log("hit", &draws(1)).is_empty());
    assert_eq!(m.channels[misc].one_shots, 2);
}

#[test]
fn global_count_gates_every_channel() {
    let rules = rules_of(
        r#"<sounds>
            <sound logPattern="busy" channel="a"><soundFile fileName="a.ogg"/></sound>
            <sound logPattern="calm" channel="b" concurency="1"><soundFile fileName="b.ogg"/></sound>
        </sounds>"#,
    );
    let mut m = SoundManager::new(rules);
    let a = channel_index(&m, "a");
    m.process_log("busy", &draws(2));
    m.process_log("busy", &draws(2));
    let live: Vec<usize> = m.channels.iter().map(|c| c.one_shots).collect();
    m.maintain(&live);
    assert_eq!(m.concurency, 2);
    assert!(m.process_log("calm", &draws(2)).is_empty());
    let mut live = vec![0; m.channels.len()];
    live[a] = 1;
    m.maintain(&live);
    assert_eq!(m.concurency, 1);
    assert_eq!(m.channels[a].one_shots, 1);
    assert_eq!(m.process_log("calm", &draws(2)).len(), 1);
}

#[test]
fn loop_start_then_stop_leaves_no_loop() {
    let rules = rules_of(
        r#"<sounds>
            <sound logPattern="rain starts" channel="weather" loop="start"><soundFile fileName="rain.ogg"/><soundFile fileName="drizzle.ogg"/></sound>
            <sound logPattern="rain stops" channel="weather" loop="stop"><soundFile fileName="thunder.ogg"/></sound>
        </sounds>"#,
    );
    assert_eq!(rules[0].loop_mode, Some(LoopMode::Start));
    assert_eq!(rules[1].loop_mode, Some(LoopMode::Stop));
    let mut m = SoundManager::new(rules);
    let w = channel_index(&m, "weather");
    let cmds = m.process_log("rain starts", &vec![Draw { gate: 0, pick: 3 }; 2]);
    assert_eq!(cmds, vec![Command::StartLoop { channel: w, rule: 0, file: 1 }]);
    assert!(m.channels[w].looping.is_some());
    assert_eq!(m.channels[w].active_count(), 1);
    let cmds = m.process_log("rain stops", &draws(2));
    assert_eq!(
        cmds,
        vec![Command::StopLoop { channel: w }, Command::OneShot { channel: w, rule: 1, file: 0 }]
    );
    assert!(m.channels[w].looping.is_none());
    assert_eq!(m.channels[w].one_shots, 1);
}

#[test]
fn loop_stop_without_files_only_stops() {
    let rules = rules_of(r#"<sounds><sound logPattern="quiet" channel="music" loop="stop"/></sounds>"#);
    let mut m = SoundManager::new(rules);
    let music = channel_index(&m, "music");
    assert_eq!(m.process_log("quiet", &draws(1)), vec![Command::StopLoop { channel: music }]);
    assert_eq!(m.channels[music].one_shots, 0);
}

#[test]
fn probability_threshold_compares_against_draw() {
    let rules = rules_of(
        r#"<sounds><sound logPattern="maybe" propability="10"><soundFile fileName="a.ogg"/></sound></sounds>"#,
    );
    assert_eq!(rules[0].probability, Some(10));
    let mut m = SoundManager::new(rules);
    assert!(m.process_log("maybe", &vec![Draw { gate: 10, pick: 0 }]).is_empty());
    assert_eq!(m.process_log("maybe", &vec![Draw { gate: 11, pick: 0 }]).len(), 1);
}

#[test]
fn pick_chooses_file_by_remainder() {
    let rules = rules_of(
        r#"<sounds><sound logPattern="x"><soundFile fileName="a.ogg"/><soundFile fileName="b.ogg"/><soundFile fileName="c.ogg"/></sound></sounds>"#,
    );
    let mut m = SoundManager::new(rules);
    let cmds = m.process_log("x", &vec![Draw { gate: 0, pick: 7 }]);
    assert_eq!(cmds, vec![Command::OneShot { channel: 0, rule: 0, file: 1 }]);
}

#[test]
fn registry_holds_default_and_named_channels() {
    let rules = rules_of(
        r#"<sounds>
            <sound logPattern="a" channel="combat"/>
            <sound logPattern="b" channel="weather"/>
            <sound logPattern="c" channel="combat"/>
            <sound logPattern="d"/>
        </sounds>"#,
    );
    let m = SoundManager::new(rules);
    assert_eq!(m.names, vec!["misc".to_string(), "combat".to_string(), "weather".to_string()]);
    assert_eq!(m.channels.len(), 3);
    assert_eq!(m.total_volume, FULL_VOLUME);
    assert_eq!(m.concurency, 0);
}

#[test]
fn errors_name_their_cause() {
    let p = patterns();
    let none: Vec<(String, String)> = Vec::new();
    assert!(matches!(load_rules(&p, "r.xml", "<sounds><sound", &none), Err(LoadError::MalformedDocument)));
    assert!(matches!(
        load_rules(&p, "r.xml", r#"<sounds><sound channel="x"/></sounds>"#, &none),
        Err(LoadError::MissingPattern)
    ));
    match load_rules(&p, "r.xml", r#"<sounds><sound logPattern="(a"/></sounds>"#, &none) {
        Err(LoadError::InvalidPattern(t)) => assert_eq!(t, "(a"),
        _ => panic!("an invalid pattern was expected"),
    }
    match load_rules(&p, "r.xml", r#"<sounds><sound logPattern="a" concurency="many"/></sounds>"#, &none) {
        Err(LoadError::InvalidNumber(t)) => assert_eq!(t, "many"),
        _ => panic!("an invalid number was expected"),
    }
    match load_rules(
        &p,
        "r.xml",
        r#"<sounds><sound logPattern="a"><soundFile fileName="f.ogg" weight="-1"/></sound></sounds>"#,
        &none,
    ) {
        Err(LoadError::InvalidNumber(t)) => assert_eq!(t, "-1"),
        _ => panic!("an invalid number was expected"),
    }
}

#[test]
fn attributes_fill_rule_fields() {
    let rules = rules_of(
        r#"<sounds><sound logPattern="a" timeout="5" delay="+7" randomBalance="true" ansiFormat="x" haltOnMatch="false">
            <soundFile fileName="f.ogg" weight="3" volumeAdjustment="-5" balanceAdjustment="0.5" randomBalance="true" delay="12"/>
        </sound></sounds>"#,
    );
    let r = &rules[0];
    assert_eq!(r.pattern.as_str(), "a");
    assert_eq!(r.timeout, Some(5));
    assert_eq!(r.delay, Some(7));
    assert!(r.random_balance);
    assert!(!r.halt_on_match);
    assert_eq!(r.channel, None);
    let f = &r.files[0];
    assert_eq!(f.weight, 3);
    assert_eq!(f.volume, "-5");
    assert_eq!(f.balance, "0.5");
    assert!(f.random_balance);
    assert_eq!(f.delay, 12);
}

#[test]
fn sound_file_outside_rule_is_ignored() {
    let rules = rules_of(
        r#"<sounds><soundFile fileName="stray.ogg"/><sound logPattern="a"><soundFile fileName="f.ogg"/></sound><soundFile fileName="late.ogg"/></sounds>"#,
    );
    assert_eq!(rules.len(), 1);
    assert_eq!(rules[0].files.len(), 1);
}

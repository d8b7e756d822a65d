//! Session phase tracker behavior on concrete corpora.

use c21logcounter::dungeon_state_machine::DungeonState;
use c21logcounter::dungeon_state_machine::DungeonStateMachine;

fn corpus(lines: &[&str]) -> Vec<String> {
    lines.iter().map(|s| s.to_string()).collect()
}

// A wall-clock instant far from every corpus timestamp, so the tracker
// stays on corpus time.
const FAR_NOW: i64 = 1_000_000;

#[test]
fn full_cycle_emits_one_range() {
    let texts = corpus(&[
        "Alice がフロアゲートを起動した！",
        "ダンジョン成功報酬",
        "報酬－ ENパック2000 x 3",
        "報酬売却－ ENパック2000 x 1",
        "報酬売却計",
    ]);
    let stamps: Vec<i64> = vec![0, 5, 10, 15, 20];
    let mut machine = DungeonStateMachine::init(texts, stamps, 0);
    assert_eq!(*machine.inspect_state(), DungeonState::OutOfDungeon);
    machine.state_change(FAR_NOW);
    assert_eq!(*machine.inspect_state(), DungeonState::Dungeon);
    machine.state_change(FAR_NOW);
    assert_eq!(*machine.inspect_state(), DungeonState::Clear);
    machine.state_change(FAR_NOW);
    assert_eq!(*machine.inspect_state(), DungeonState::Reward);
    machine.state_change(FAR_NOW);
    assert_eq!(*machine.inspect_state(), DungeonState::Sell);
    machine.state_change(FAR_NOW);
    assert_eq!(*machine.inspect_state(), DungeonState::OutOfDungeon);

    let out = machine.statics(FAR_NOW).unwrap();
    assert_eq!(out.rewards.get("ENパック2000"), Some(3));
    assert_eq!(out.sells.get("ENパック2000"), Some(1));
    // Out of the dungeon again: no running lap is reported.
    assert_eq!(out.lap_time, None);

    assert_eq!(machine.query_dungeon_range(), Some((0, 5)));
    assert_eq!(machine.query_dungeon_range(), None);
}

#[test]
fn timeout_closes_session_without_reward() {
    let texts = corpus(&[
        "Alice がフロアゲートを起動した！",
        "ダンジョン成功報酬",
        "なにもおきない",
        "まだなにもおきない",
    ]);
    let stamps: Vec<i64> = vec![0, 5, 200, 210];
    let mut machine = DungeonStateMachine::init(texts, stamps, 0);
    machine.state_change(FAR_NOW);
    assert_eq!(*machine.inspect_state(), DungeonState::Dungeon);
    machine.state_change(FAR_NOW);
    assert_eq!(*machine.inspect_state(), DungeonState::Clear);
    machine.state_change(FAR_NOW);
    assert_eq!(*machine.inspect_state(), DungeonState::Clear);
    assert_eq!(machine.query_dungeon_range(), None);
    machine.state_change(FAR_NOW);
    assert_eq!(*machine.inspect_state(), DungeonState::OutOfDungeon);
    assert_eq!(machine.query_dungeon_range(), Some((0, 4)));
}

#[test]
fn live_tailing_uses_wall_clock() {
    let texts = corpus(&["Alice がフロアゲートを起動した！", "ダンジョン成功報酬"]);
    let stamps: Vec<i64> = vec![1000, 1010];
    let mut machine = DungeonStateMachine::init(texts, stamps, 0);
    // The wall clock is within six seconds of the first line's timestamp,
    // so later timeouts compare against the wall clock.
    machine.state_change(1002);
    assert_eq!(*machine.inspect_state(), DungeonState::Dungeon);
    machine.state_change(1003);
    assert_eq!(*machine.inspect_state(), DungeonState::Clear);
    // Corpus time stands still, but the wall clock has passed the timeout.
    machine.state_change(1200);
    assert_eq!(*machine.inspect_state(), DungeonState::OutOfDungeon);
    assert_eq!(machine.query_dungeon_range(), Some((0, 1)));
}

#[test]
fn supply_text_grows_the_corpus() {
    let mut machine = DungeonStateMachine::init(Vec::new(), Vec::new(), 0);
    assert_eq!(machine.get_current_text_len(), 0);
    machine.state_change(FAR_NOW);
    assert_eq!(*machine.inspect_state(), DungeonState::OutOfDungeon);

    let growth = corpus(&["ようこそ", "Alice がフロアゲートを起動した！"]);
    let stamps: Vec<i64> = vec![0, 3];
    machine.supply_text((&stamps, &growth));
    assert_eq!(machine.get_current_text_len(), 2);
    machine.state_change(FAR_NOW);
    assert_eq!(*machine.inspect_state(), DungeonState::Dungeon);
}

#[test]
fn reentry_emits_previous_window() {
    let texts = corpus(&[
        "Alice がフロアゲートを起動した！",
        "ダンジョン成功報酬",
        "報酬－ ENパック2000 x 3",
        "Alice がフロアゲートを起動した！",
    ]);
    let stamps: Vec<i64> = vec![0, 5, 10, 15];
    let mut machine = DungeonStateMachine::init(texts, stamps, 0);
    machine.state_change(FAR_NOW);
    machine.state_change(FAR_NOW);
    machine.state_change(FAR_NOW);
    assert_eq!(*machine.inspect_state(), DungeonState::Reward);
    // Another floor activation before any sell marker re-enters the
    // dungeon; the earlier window ends where the new session begins.
    machine.state_change(FAR_NOW);
    assert_eq!(*machine.inspect_state(), DungeonState::Dungeon);
    assert_eq!(machine.query_dungeon_range(), Some((0, 3)));
}

#[test]
fn statics_in_dungeon_reports_running_lap() {
    let texts = corpus(&[
        "Alice がフロアゲートを起動した！",
        "[リペアパック2000] を 3個 取得した！",
        "[コアユニット] を取得した！",
        "[リペアパック2000] を使用した！",
        "\tスライムを撃破した",
    ]);
    let stamps: Vec<i64> = vec![0, 10, 20, 30, 40];
    let mut machine = DungeonStateMachine::init(texts, stamps, 0);
    machine.state_change(FAR_NOW);
    assert_eq!(*machine.inspect_state(), DungeonState::Dungeon);
    machine.state_change(FAR_NOW);
    assert_eq!(*machine.inspect_state(), DungeonState::Dungeon);
    let out = machine.statics(FAR_NOW).unwrap();
    // Items, item use, parts, kills, over the open window.
    assert_eq!(out.statics[0].get("[リペアパック2000]"), Some(3));
    assert_eq!(out.statics[1].get("[リペアパック2000]"), Some(1));
    assert_eq!(out.statics[2].get("[コアユニット]"), Some(1));
    assert_eq!(out.statics[3].get("スライム"), Some(1));
    // Not synchronized: the lap runs on corpus time, up to the last line.
    assert_eq!(out.lap_time, Some(40));
}

#[test]
fn advance_on_empty_corpus_is_safe() {
    let mut machine = DungeonStateMachine::init(Vec::new(), Vec::new(), 0);
    machine.state_change(FAR_NOW);
    machine.state_change(FAR_NOW);
    assert_eq!(*machine.inspect_state(), DungeonState::OutOfDungeon);
    assert_eq!(machine.query_dungeon_range(), None);
    let out = machine.statics(FAR_NOW).unwrap();
    assert_eq!(out.lap_time, None);
    assert_eq!(out.rewards.len(), 0);
}

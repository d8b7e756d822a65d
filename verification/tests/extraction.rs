//! Extraction engine behavior on concrete log lines.

use c21logcounter::engines::engine_gacha;
use c21logcounter::engines::engine_get_part;
use c21logcounter::engines::engine_item_get;
use c21logcounter::engines::engine_item_use;
use c21logcounter::engines::engine_kill_self;
use c21logcounter::engines::engine_labo;
use c21logcounter::engines::engine_rare;
use c21logcounter::engines::engine_reward_dungeon;
use c21logcounter::engines::search_dungeon_clear;
use c21logcounter::engines::search_floor;
use c21logcounter::engines::search_floor_first;
use c21logcounter::engines::search_reward_first;
use c21logcounter::engines::search_reward_sell_first;
use c21logcounter::engines::search_sell_total_first;

fn corpus(lines: &[&str]) -> Vec<String> {
    lines.iter().map(|s| s.to_string()).collect()
}

#[test]
fn item_get_counts_quantities() {
    let texts = corpus(&[
        "[リペアパック2000] を 3個 取得した！",
        "そのほかの行",
        "[リペアパック2000] を 2個 取得した！",
        "[コズミックM] を 1個 取得した！",
    ]);
    let agg = engine_item_get(&texts, 0);
    assert_eq!(agg.get("[リペアパック2000]"), Some(5));
    assert_eq!(agg.get("[コズミックM]"), Some(1));
    assert_eq!(agg.get("そのほかの行"), None);
    assert_eq!(agg.len(), 2);
}

#[test]
fn item_get_respects_start_index() {
    let texts = corpus(&[
        "[リペアパック2000] を 3個 取得した！",
        "[リペアパック2000] を 2個 取得した！",
    ]);
    let agg = engine_item_get(&texts, 1);
    assert_eq!(agg.get("[リペアパック2000]"), Some(2));
}

#[test]
fn part_get_counts_once_per_line() {
    let texts = corpus(&[
        "[ビクトリーヘッド] を取得した！",
        "[ビクトリーヘッド] を取得した！",
        "[ゼロファイターAM2] を取得した！",
    ]);
    let agg = engine_get_part(&texts, 0);
    assert_eq!(agg.get("[ビクトリーヘッド]"), Some(2));
    assert_eq!(agg.get("[ゼロファイターAM2]"), Some(1));
}

#[test]
fn item_use_counts_once_per_line() {
    let texts = corpus(&["[リペアパック2000] を使用した！", "無関係"]);
    let agg = engine_item_use(&texts, 0);
    assert_eq!(agg.get("[リペアパック2000]"), Some(1));
    assert_eq!(agg.len(), 1);
}

#[test]
fn kill_self_extracts_defeated_name() {
    let texts = corpus(&["\tデストラクターXを撃破した", "\tデストラクターXを撃破した", "誰かがなにかを撃破した"]);
    let agg = engine_kill_self(&texts, 0);
    assert_eq!(agg.get("デストラクターX"), Some(2));
}

#[test]
fn gacha_and_rare_extract_names() {
    let texts = corpus(&[
        "[ガチャポンの激レア] が当たりました！",
        "誰かが [ガチャポンの激レア] をガチャセンターで当てました！",
    ]);
    let gacha = engine_gacha(&texts, 0);
    assert_eq!(gacha.get("ガチャポンの激レア"), Some(1));
    let rare = engine_rare(&texts, 0);
    assert_eq!(rare.get("ガチャポンの激レア"), Some(1));
}

#[test]
fn crafting_legacy_format_counts_one() {
    let texts = corpus(&["鉄の小手 の作成に成功しました。"]);
    let agg = engine_labo(&texts, 0);
    assert_eq!(agg.get("鉄の小手"), Some(1));
}

#[test]
fn crafting_counted_format_takes_suffix() {
    let texts = corpus(&["有機的な破片 × 4 の作成に成功しました。", "有機的な破片 × 3 の作成に成功しました。"]);
    let agg = engine_labo(&texts, 0);
    assert_eq!(agg.get("有機的な破片"), Some(7));
}

#[test]
fn reward_pair_keeps_sides_independent() {
    let texts = corpus(&["報酬－ ENパック2000 x 2", "報酬売却－ ENパック2000 x 1"]);
    let agg = engine_reward_dungeon(&texts, 0);
    assert_eq!(agg.get("ENパック2000"), Some((2, 1)));
}

#[test]
fn reward_pair_one_sided_entries() {
    let texts = corpus(&["報酬－ ルビー x 2", "報酬売却－ ガーネット x 5"]);
    let agg = engine_reward_dungeon(&texts, 0);
    assert_eq!(agg.get("ルビー"), Some((2, 0)));
    assert_eq!(agg.get("ガーネット"), Some((0, 5)));
    assert_eq!(agg.get("ダイヤ"), None);
}

#[test]
fn extraction_is_order_independent() {
    let forward = corpus(&[
        "[リペアパック2000] を 3個 取得した！",
        "[コズミックM] を 1個 取得した！",
        "[リペアパック2000] を 2個 取得した！",
    ]);
    let mut backward = forward.clone();
    backward.reverse();
    let a = engine_item_get(&forward, 0);
    let b = engine_item_get(&backward, 0);
    assert_eq!(a.get("[リペアパック2000]"), b.get("[リペアパック2000]"));
    assert_eq!(a.get("[コズミックM]"), b.get("[コズミックM]"));
    assert_eq!(a.len(), b.len());
}

#[test]
fn floor_search_first_and_last() {
    let texts = corpus(&[
        "ようこそ",
        "Alice がフロアゲートを起動した！",
        "中間の行",
        "Bob がフロアゲートを起動した！",
    ]);
    assert_eq!(search_floor_first(&texts, 0), Some(1));
    assert_eq!(search_floor_first(&texts, 2), Some(3));
    assert_eq!(search_floor(&texts, 0), Some(3));
    assert_eq!(search_floor(&texts, 4), None);
    assert_eq!(search_floor_first(&texts, 4), None);
}

#[test]
fn marker_searches_find_first_match() {
    let texts = corpus(&[
        "Alice がフロアゲートを起動した！",
        "ダンジョン成功報酬",
        "報酬－ ENパック2000 x 3",
        "報酬売却－ ENパック2000 x 1",
        "報酬売却計",
    ]);
    assert_eq!(search_dungeon_clear(&texts, 0), Some(1));
    assert_eq!(search_reward_first(&texts, 0), Some(2));
    assert_eq!(search_reward_sell_first(&texts, 0), Some(3));
    assert_eq!(search_sell_total_first(&texts, 0), Some(4));
    assert_eq!(search_dungeon_clear(&texts, 2), None);
    assert_eq!(search_reward_first(&texts, 5), None);
}

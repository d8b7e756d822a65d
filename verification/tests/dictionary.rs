//! The tab-separated dictionary: loading, lookup through the extractor,
//! and the addressed metric kinds.

use c21logcounter::setting::GetPathError;
use c21logcounter::setting::Setting;
use c21logcounter::statics_address::StaticsAddress;
use c21logcounter::tsv::engine_tsv_match;
use c21logcounter::tsv::load_tsv_text;
use c21logcounter::tsv::Dictionary;

fn corpus(lines: &[&str]) -> Vec<String> {
    lines.iter().map(|s| s.to_string()).collect()
}

#[test]
fn load_tsv_text_parses_records() {
    let dict = load_tsv_text("ダンジョンをクリアした\tダンジョンクリア\n突発任務が発生した\t突発");
    let texts = corpus(&["\tダンジョンをクリアした", "\t突発任務が発生した", "\tダンジョンをクリアした"]);
    let agg = engine_tsv_match(&texts, &dict, 0);
    assert_eq!(agg.get("ダンジョンクリア"), Some(2));
    assert_eq!(agg.get("突発"), Some(1));
}

#[test]
fn load_tsv_text_later_binding_wins() {
    let dict = load_tsv_text("key\tfirst\nkey\tsecond");
    let texts = corpus(&["\tkey"]);
    let agg = engine_tsv_match(&texts, &dict, 0);
    assert_eq!(agg.get("second"), Some(1));
    assert_eq!(agg.get("first"), None);
}

#[test]
fn load_tsv_text_value_stops_at_second_tab() {
    let dict = load_tsv_text("key\tvalue\tcomment\nplain");
    let texts = corpus(&["\tkey"]);
    let agg = engine_tsv_match(&texts, &dict, 0);
    assert_eq!(agg.get("value"), Some(1));
    assert_eq!(agg.get("value\tcomment"), None);
}

#[test]
fn tsv_match_normalizes_lines() {
    // A record whose raw form held a tab is stored with the two-character
    // escape; a carriage return on the corpus line is ignored.
    let mut dict = Dictionary::new();
    dict.insert("left\\tright".to_string(), "名前".to_string());
    let texts = corpus(&["\tleft\tright\r", "\tsomething else"]);
    let agg = engine_tsv_match(&texts, &dict, 0);
    assert_eq!(agg.get("名前"), Some(1));
    assert_eq!(agg.len(), 1);
}

#[test]
fn tsv_match_skips_short_lines() {
    let mut dict = Dictionary::new();
    dict.insert("".to_string(), "empty".to_string());
    let texts = corpus(&["", "a"]);
    let agg = engine_tsv_match(&texts, &dict, 0);
    assert_eq!(agg.len(), 0);
}

#[test]
fn address_from_url_maps_known_paths() {
    assert_eq!(StaticsAddress::from_url("./items"), Some(StaticsAddress::Item));
    assert_eq!(StaticsAddress::from_url("./parts"), Some(StaticsAddress::Parts));
    assert_eq!(StaticsAddress::from_url("./use"), Some(StaticsAddress::ItemUse));
    assert_eq!(StaticsAddress::from_url("./kills"), Some(StaticsAddress::Kill));
    assert_eq!(StaticsAddress::from_url("./labo"), Some(StaticsAddress::Lab));
    assert_eq!(StaticsAddress::from_url("./gacha"), Some(StaticsAddress::Gacha));
    assert_eq!(
        StaticsAddress::from_url("./dungeon_clear"),
        Some(StaticsAddress::DungeonClear)
    );
    assert_eq!(StaticsAddress::from_url("./burst"), Some(StaticsAddress::Burst));
    assert_eq!(StaticsAddress::from_url("./mission"), Some(StaticsAddress::Mission));
    assert_eq!(StaticsAddress::from_url("./shuttle"), Some(StaticsAddress::Shuttle));
    assert_eq!(StaticsAddress::from_url("./unknown"), None);
    assert_eq!(StaticsAddress::from_url(""), None);
}

#[test]
fn address_indices_are_stable() {
    assert_eq!(StaticsAddress::Item.as_uint(), 0);
    assert_eq!(StaticsAddress::ItemUse.as_uint(), 1);
    assert_eq!(StaticsAddress::Parts.as_uint(), 2);
    assert_eq!(StaticsAddress::Kill.as_uint(), 3);
    assert_eq!(StaticsAddress::Burst.as_uint(), 4);
    assert_eq!(StaticsAddress::Mission.as_uint(), 5);
    assert_eq!(StaticsAddress::DungeonClear.as_uint(), 6);
    assert_eq!(StaticsAddress::Shuttle.as_uint(), 7);
    assert_eq!(StaticsAddress::Lab.as_uint(), 8);
    assert_eq!(StaticsAddress::Gacha.as_uint(), 9);
    assert_eq!(StaticsAddress::DungeonReward.as_uint(), 10);
    assert_eq!(StaticsAddress::DungeonSell.as_uint(), 11);
}

#[test]
fn address_dictionary_indices() {
    assert_eq!(StaticsAddress::Burst.as_dictionary_index(), Some(0));
    assert_eq!(StaticsAddress::DungeonClear.as_dictionary_index(), Some(1));
    assert_eq!(StaticsAddress::Mission.as_dictionary_index(), Some(2));
    assert_eq!(StaticsAddress::Shuttle.as_dictionary_index(), Some(3));
    assert_eq!(StaticsAddress::Item.as_dictionary_index(), None);
    assert_eq!(StaticsAddress::DungeonReward.as_dictionary_index(), None);
}

#[test]
fn address_labels() {
    assert_eq!(StaticsAddress::Item.to_string(), "アイテム取得");
    assert_eq!(StaticsAddress::DungeonReward.to_string(), "ダンジョン報酬");
    assert_eq!(StaticsAddress::DungeonSell.to_string(), "ダンジョン報酬売却");
}

#[test]
fn setting_holds_its_fields() {
    let s = Setting::new("c21.exe".to_string(), "/games/c21/".to_string(), 7878);
    assert_eq!(s.launcher_name, "c21.exe");
    assert_eq!(s.base_path, "/games/c21/");
    assert_eq!(s.port, 7878);
    assert_eq!(GetPathError::ProcessNotFound, GetPathError::ProcessNotFound);
}

//! The enumerated metric kinds a statistics request can address, with
//! their request paths, slot indices and display labels.

use vstd::prelude::*;

use crate::utils::str_eq;

verus! {

/// One statistics page: which extractor family a request selects.
#[derive(Clone, Copy, Debug, PartialEq, Eq, Structural)]
pub enum StaticsAddress {
    Item,
    ItemUse,
    Parts,
    Kill,
    Burst,
    Mission,
    Shuttle,
    Lab,
    Gacha,
    DungeonReward,
    DungeonSell,
    DungeonClear,
}

/// The metric a request path addresses, if any.
pub open spec fn address_of_url(u: Seq<char>) -> Option<StaticsAddress> {
    if u == "./items"@ {
        Some(StaticsAddress::Item)
    } else if u == "./parts"@ {
        Some(StaticsAddress::Parts)
    } else if u == "./use"@ {
        Some(StaticsAddress::ItemUse)
    } else if u == "./kills"@ {
        Some(StaticsAddress::Kill)
    } else if u == "./labo"@ {
        Some(StaticsAddress::Lab)
    } else if u == "./gacha"@ {
        Some(StaticsAddress::Gacha)
    } else if u == "./dungeon_clear"@ {
        Some(StaticsAddress::DungeonClear)
    } else if u == "./burst"@ {
        Some(StaticsAddress::Burst)
    } else if u == "./mission"@ {
        Some(StaticsAddress::Mission)
    } else if u == "./shuttle"@ {
        Some(StaticsAddress::Shuttle)
    } else {
        None
    }
}

/// The cache slot a metric uses.
pub open spec fn address_index(a: StaticsAddress) -> int {
    match a {
        StaticsAddress::Item => 0,
        StaticsAddress::ItemUse => 1,
        StaticsAddress::Parts => 2,
        StaticsAddress::Kill => 3,
        StaticsAddress::Burst => 4,
        StaticsAddress::Mission => 5,
        StaticsAddress::DungeonClear => 6,
        StaticsAddress::Shuttle => 7,
        StaticsAddress::Lab => 8,
        StaticsAddress::Gacha => 9,
        StaticsAddress::DungeonReward => 10,
        StaticsAddress::DungeonSell => 11,
    }
}

/// The literal-text dictionary a metric matches lines against, if any.
pub open spec fn address_dictionary_index(a: StaticsAddress) -> Option<int> {
    match a {
        StaticsAddress::Burst => Some(0),
        StaticsAddress::DungeonClear => Some(1),
        StaticsAddress::Mission => Some(2),
        StaticsAddress::Shuttle => Some(3),
        _ => None,
    }
}

/// The display label of a metric.
pub open spec fn address_label(a: StaticsAddress) -> Seq<char> {
    match a {
        StaticsAddress::Item => "アイテム取得"@,
        StaticsAddress::ItemUse => "アイテム使用"@,
        StaticsAddress::Parts => "パーツ"@,
        StaticsAddress::Kill => "キル"@,
        StaticsAddress::Burst => "突発"@,
        StaticsAddress::Mission => "ミッション"@,
        StaticsAddress::DungeonClear => "ダンジョンクリア"@,
        StaticsAddress::Shuttle => "シャトル"@,
        StaticsAddress::Lab => "合成"@,
        StaticsAddress::Gacha => "ガチャ"@,
        StaticsAddress::DungeonReward => "ダンジョン報酬"@,
        StaticsAddress::DungeonSell => "ダンジョン報酬売却"@,
    }
}

impl StaticsAddress {
    /// The metric a request path selects, or nothing for an unknown path.
    pub fn from_url(url: &str) -> (r: Option<Self>)
        ensures
            r == address_of_url(url@),
    {
        if str_eq(url, "./items") {
            Some(Self::Item)
        } else if str_eq(url, "./parts") {
            Some(Self::Parts)
        } else if str_eq(url, "./use") {
            Some(Self::ItemUse)
        } else if str_eq(url, "./kills") {
            Some(Self::Kill)
        } else if str_eq(url, "./labo") {
            Some(Self::Lab)
        } else if str_eq(url, "./gacha") {
            Some(Self::Gacha)
        } else if str_eq(url, "./dungeon_clear") {
            Some(Self::DungeonClear)
        } else if str_eq(url, "./burst") {
            Some(Self::Burst)
        } else if str_eq(url, "./mission") {
            Some(Self::Mission)
        } else if str_eq(url, "./shuttle") {
            Some(Self::Shuttle)
        } else {
            None
        }
    }

    /// The cache slot this metric uses.
    pub fn as_uint(&self) -> (r: usize)
        ensures
            r as int == address_index(*self),
    {
        match self {
            StaticsAddress::Item => 0,
            StaticsAddress::ItemUse => 1,
            StaticsAddress::Parts => 2,
            StaticsAddress::Kill => 3,
            StaticsAddress::Burst => 4,
            StaticsAddress::Mission => 5,
            StaticsAddress::DungeonClear => 6,
            StaticsAddress::Shuttle => 7,
            StaticsAddress::Lab => 8,
            StaticsAddress::Gacha => 9,
            StaticsAddress::DungeonReward => 10,
            StaticsAddress::DungeonSell => 11,
        }
    }

    /// The dictionary slot this metric matches against, if it is one of
    /// the literal-text dictionary metrics.
    pub fn as_dictionary_index(&self) -> (r: Option<usize>)
        ensures
            match r {
                Some(i) => address_dictionary_index(*self) == Some(i as int),
                None => address_dictionary_index(*self) is None,
            },
    {
        match self {
            StaticsAddress::Burst => Some(0),
            StaticsAddress::DungeonClear => Some(1),
            StaticsAddress::Mission => Some(2),
            StaticsAddress::Shuttle => Some(3),
            _ => None,
        }
    }

    /// The display label of this metric.
    pub fn to_string(&self) -> (r: String)
        ensures
            r@ == address_label(*self),
    {
        let text: &str = match self {
            StaticsAddress::Item => "アイテム取得",
            StaticsAddress::ItemUse => "アイテム使用",
            StaticsAddress::Parts => "パーツ",
            StaticsAddress::Kill => "キル",
            StaticsAddress::Burst => "突発",
            StaticsAddress::Mission => "ミッション",
            StaticsAddress::DungeonClear => "ダンジョンクリア",
            StaticsAddress::Shuttle => "シャトル",
            StaticsAddress::Lab => "合成",
            StaticsAddress::Gacha => "ガチャ",
            StaticsAddress::DungeonReward => "ダンジョン報酬",
            StaticsAddress::DungeonSell => "ダンジョン報酬売却",
        };
        text.to_owned()
    }
}

} // verus!

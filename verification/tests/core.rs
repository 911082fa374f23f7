use icarus_saves::{
    build_map, build_set, flag_get, flag_set, resource_get, resource_set, Character, Cosmetics,
    MetaResources, Profile, RefTables, Talent,
};

fn cosmetics() -> Cosmetics {
    Cosmetics {
        customization_head: 1,
        customization_hair: 2,
        customization_hair_color: 3,
        customization_body: 4,
        customization_body_color: 5,
        customization_skin_tone: 6,
        customization_head_tattoo: 7,
        customization_head_scar: 8,
        customization_head_facial_hair: 9,
        customization_cap_logo: 10,
        is_male: true,
        customization_voice: 11,
        customization_eye_color: 12,
    }
}

fn character(slot: i64, talents: Vec<Talent>) -> Character {
    Character {
        character_name: String::from("Kai"),
        character_slot: slot,
        xp: 100,
        xp_debt: 0,
        is_dead: false,
        is_abandoned: true,
        last_prospect_id: String::from("Prospect_1"),
        location: String::from("Olympus"),
        unlocked_flags: vec![17],
        meta_resources: vec![MetaResources { meta_row: String::from("Credits"), count: 5 }],
        cosmetics: cosmetics(),
        talents,
        inventory_file: String::from("InventoryID_0.json"),
        loadout_file: String::from("Slot_0.json"),
    }
}

fn tables() -> RefTables {
    RefTables {
        talents: build_map("Talent_A,3\nTalent_B,5").unwrap(),
        blueprints: build_set("BP_A,1\nBP_B,1").unwrap(),
        prospects: build_set("Prospect_A,1").unwrap(),
        workshop_items: build_set("Workshop_A,1").unwrap(),
    }
}

#[test]
fn build_set_reads_first_fields() {
    let set = build_set("Alpha,1\nBeta,2\nAlpha,3").unwrap();
    assert_eq!(set.names.len(), 2);
    assert_eq!(set.names[0], "Alpha");
    assert_eq!(set.names[1], "Beta");
}

#[test]
fn build_set_rejects_bad_line() {
    assert!(build_set("Alpha,1\nBroken").is_none());
    assert!(build_set("Alpha,1,2").is_none());
}

#[test]
fn build_map_reads_ranks_and_replaces_duplicates() {
    let map = build_map("Alpha,3\nBeta,5.0\nAlpha,7").unwrap();
    assert_eq!(map.rows.len(), 2);
    assert_eq!(map.rows[0].row_name, "Alpha");
    assert_eq!(map.rows[0].rank, 7);
    assert_eq!(map.rows[1].row_name, "Beta");
    assert_eq!(map.rows[1].rank, 5);
}

#[test]
fn build_map_rejects_non_numeric_rank() {
    assert!(build_map("Alpha,many").is_none());
}

#[test]
fn flag_view_set_then_get() {
    let mut flags: Vec<i64> = Vec::new();
    flag_set(&mut flags, 17, true);
    assert!(flag_get(&flags, 17));
    assert_eq!(flags, vec![17]);
}

#[test]
fn flag_view_clear_removes_duplicates() {
    let mut flags: Vec<i64> = vec![17, 17];
    flag_set(&mut flags, 17, false);
    assert!(flags.is_empty());
    assert!(!flag_get(&flags, 17));
}

#[test]
fn flag_view_set_is_no_duplicate() {
    let mut flags: Vec<i64> = vec![17];
    flag_set(&mut flags, 17, true);
    assert_eq!(flags, vec![17]);
}

#[test]
fn resource_view_absent_reads_zero_without_mutation() {
    let list = vec![MetaResources { meta_row: String::from("Exotic1"), count: 3 }];
    assert_eq!(resource_get(&list, &String::from("Credits")), 0);
    assert_eq!(list.len(), 1);
    assert_eq!(list[0].meta_row, "Exotic1");
    assert_eq!(list[0].count, 3);
}

#[test]
fn resource_view_set_inserts_new_entry() {
    let mut list = vec![MetaResources { meta_row: String::from("Exotic1"), count: 3 }];
    resource_set(&mut list, &String::from("Credits"), 500);
    assert_eq!(list.len(), 2);
    assert_eq!(list[0].meta_row, "Exotic1");
    assert_eq!(list[0].count, 3);
    assert_eq!(list[1].meta_row, "Credits");
    assert_eq!(list[1].count, 500);
    assert_eq!(resource_get(&list, &String::from("Credits")), 500);
}

#[test]
fn resource_view_set_updates_in_place() {
    let mut list = vec![
        MetaResources { meta_row: String::from("Credits"), count: 3 },
        MetaResources { meta_row: String::from("Exotic1"), count: 9 },
    ];
    resource_set(&mut list, &String::from("Credits"), 42);
    assert_eq!(list.len(), 2);
    assert_eq!(list[0].count, 42);
    assert_eq!(list[1].count, 9);
}

#[test]
fn reset_talents_is_selective() {
    let t = tables();
    let mut c = character(
        0,
        vec![
            Talent { row_name: String::from("Talent_A"), rank: 1 },
            Talent { row_name: String::from("BP_A"), rank: 1 },
            Talent { row_name: String::from("Talent_B"), rank: 2 },
            Talent { row_name: String::from("Other"), rank: 4 },
        ],
    );
    c.reset_talents(&t);
    assert_eq!(c.talents.len(), 2);
    assert_eq!(c.talents[0].row_name, "BP_A");
    assert_eq!(c.talents[1].row_name, "Other");
}

#[test]
fn reset_blueprints_removes_only_blueprints() {
    let t = tables();
    let mut c = character(
        0,
        vec![
            Talent { row_name: String::from("BP_A"), rank: 1 },
            Talent { row_name: String::from("Talent_A"), rank: 1 },
        ],
    );
    c.reset_blueprints(&t);
    assert_eq!(c.talents.len(), 1);
    assert_eq!(c.talents[0].row_name, "Talent_A");
}

#[test]
fn unlock_all_talents_uses_max_ranks() {
    let t = tables();
    let mut c = character(0, vec![Talent { row_name: String::from("Talent_A"), rank: 1 }]);
    c.unlock_all_talents(&t);
    assert_eq!(c.talents.len(), 2);
    assert_eq!(c.talents[0].row_name, "Talent_A");
    assert_eq!(c.talents[0].rank, 3);
    assert_eq!(c.talents[1].row_name, "Talent_B");
    assert_eq!(c.talents[1].rank, 5);
}

#[test]
fn unlock_all_talents_twice_is_idempotent() {
    let t = tables();
    let mut c = character(
        0,
        vec![
            Talent { row_name: String::from("Other"), rank: 9 },
            Talent { row_name: String::from("Talent_B"), rank: 1 },
        ],
    );
    c.unlock_all_talents(&t);
    let once: Vec<(String, i64)> =
        c.talents.iter().map(|t| (t.row_name.clone(), t.rank)).collect();
    c.unlock_all_talents(&t);
    let twice: Vec<(String, i64)> =
        c.talents.iter().map(|t| (t.row_name.clone(), t.rank)).collect();
    assert_eq!(once, twice);
}

#[test]
fn unlock_all_blueprints_appends_rank_one() {
    let t = tables();
    let mut c = character(0, vec![Talent { row_name: String::from("Other"), rank: 9 }]);
    c.unlock_all_blueprints(&t);
    assert_eq!(c.talents.len(), 3);
    assert_eq!(c.talents[0].row_name, "Other");
    assert_eq!(c.talents[1].row_name, "BP_A");
    assert_eq!(c.talents[1].rank, 1);
    assert_eq!(c.talents[2].row_name, "BP_B");
    assert_eq!(c.talents[2].rank, 1);
}

#[test]
fn profile_unlocks_prospects_and_workshop_items() {
    let t = tables();
    let mut p = Profile {
        user_id: String::from("u"),
        meta_resources: Vec::new(),
        unlocked_flags: Vec::new(),
        talents: vec![Talent { row_name: String::from("Prospect_A"), rank: 4 }],
    };
    p.unlock_all_prospects(&t);
    assert_eq!(p.talents.len(), 1);
    assert_eq!(p.talents[0].row_name, "Prospect_A");
    assert_eq!(p.talents[0].rank, 1);
    p.unlock_all_workshop_items(&t);
    assert_eq!(p.talents.len(), 2);
    assert_eq!(p.talents[1].row_name, "Workshop_A");
    assert_eq!(p.talents[1].rank, 1);
}

#[test]
fn level_to_max_sets_sentinel() {
    let mut c = character(0, Vec::new());
    c.level_to_max();
    assert_eq!(c.xp, 99_999_999);
}

#[test]
fn restore_clears_dead_and_abandoned() {
    let mut c = character(0, Vec::new());
    c.is_dead = true;
    c.is_abandoned = true;
    c.restore();
    assert!(!c.is_dead);
    assert!(!c.is_abandoned);
    assert_eq!(c.xp, 100);
}

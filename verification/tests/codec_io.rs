use icarus_saves::{
    decode_characters, decode_profile, default_inventory, encode_character, encode_characters,
    encode_profile, int_to_string, inventory_file_name, loadout_file_name, parse_int,
    update_loadout_text, Character, Cosmetics, MetaResources, Profile, Talent,
};

fn cosmetics() -> Cosmetics {
    Cosmetics {
        customization_head: 1,
        customization_hair: 2,
        customization_hair_color: 3,
        customization_body: 4,
        customization_body_color: 5,
        customization_skin_tone: 6,
        customization_head_tattoo: 7,
        customization_head_scar: 8,
        customization_head_facial_hair: 9,
        customization_cap_logo: 10,
        is_male: false,
        customization_voice: 11,
        customization_eye_color: 12,
    }
}

fn character(name: &str, slot: i64) -> Character {
    Character {
        character_name: String::from(name),
        character_slot: slot,
        xp: 12345,
        xp_debt: 10,
        is_dead: false,
        is_abandoned: false,
        last_prospect_id: String::from("Prospect_9"),
        location: String::from("Styx"),
        unlocked_flags: vec![17, 18],
        meta_resources: vec![MetaResources { meta_row: String::from("Exotic1"), count: 7 }],
        cosmetics: cosmetics(),
        talents: vec![Talent { row_name: String::from("Talent_A"), rank: 2 }],
        inventory_file: inventory_file_name(slot),
        loadout_file: loadout_file_name(slot),
    }
}

#[test]
fn integer_literals_round_trip() {
    assert_eq!(int_to_string(0), "0");
    assert_eq!(int_to_string(-5), "-5");
    assert_eq!(int_to_string(99_999_999), "99999999");
    assert_eq!(int_to_string(i64::MIN), "-9223372036854775808");
    assert_eq!(parse_int("17"), Some(17));
    assert_eq!(parse_int("17.0"), Some(17));
    assert_eq!(parse_int("-4.00"), Some(-4));
    assert_eq!(parse_int("9223372036854775807"), Some(i64::MAX));
    assert_eq!(parse_int("-9223372036854775808"), Some(i64::MIN));
    assert_eq!(parse_int("17.5"), None);
    assert_eq!(parse_int(""), None);
    assert_eq!(parse_int("x1"), None);
    assert_eq!(parse_int("9223372036854775808"), None);
}

#[test]
fn profile_encodes_canonically() {
    let p = Profile {
        user_id: String::from("u1"),
        meta_resources: vec![MetaResources { meta_row: String::from("Credits"), count: 5 }],
        unlocked_flags: vec![17],
        talents: vec![Talent { row_name: String::from("T1"), rank: 2 }],
    };
    let text = encode_profile(&p);
    assert_eq!(
        text,
        "{\"UserID\":\"u1\",\"MetaResources\":[{\"MetaRow\":\"Credits\",\"Count\":5}],\"UnlockedFlags\":[17],\"Talents\":[{\"RowName\":\"T1\",\"Rank\":2}]}"
    );
}

#[test]
fn profile_round_trips() {
    let p = Profile {
        user_id: String::from("user \"quoted\" and back\\slash"),
        meta_resources: vec![
            MetaResources { meta_row: String::from("Credits"), count: 500 },
            MetaResources { meta_row: String::from("Exotic1"), count: -3 },
        ],
        unlocked_flags: vec![17, 18, 17],
        talents: vec![Talent { row_name: String::from("T1"), rank: 2 }],
    };
    let text = encode_profile(&p);
    let q = decode_profile(&text).unwrap();
    assert_eq!(q.user_id, p.user_id);
    assert_eq!(q.unlocked_flags, p.unlocked_flags);
    assert_eq!(q.meta_resources.len(), 2);
    assert_eq!(q.meta_resources[0].meta_row, "Credits");
    assert_eq!(q.meta_resources[0].count, 500);
    assert_eq!(q.meta_resources[1].meta_row, "Exotic1");
    assert_eq!(q.meta_resources[1].count, -3);
    assert_eq!(q.talents.len(), 1);
    assert_eq!(q.talents[0].row_name, "T1");
    assert_eq!(q.talents[0].rank, 2);
}

#[test]
fn profile_decodes_with_whitespace_and_field_order() {
    let text = "{\n  \"Talents\": [],\n  \"UnlockedFlags\": [ 17.0, 18 ],\n  \"MetaResources\": [],\n  \"UserID\": \"z\"\n}";
    let p = decode_profile(text).unwrap();
    assert_eq!(p.user_id, "z");
    assert_eq!(p.unlocked_flags, vec![17, 18]);
    assert!(p.meta_resources.is_empty());
    assert!(p.talents.is_empty());
}

#[test]
fn character_round_trips() {
    let c = character("Kai", 3);
    let text = encode_character(&c);
    let envelope = encode_characters(&vec![c]);
    let cs = decode_characters(&envelope).unwrap();
    assert_eq!(cs.len(), 1);
    let q = &cs[0];
    assert_eq!(q.character_name, "Kai");
    assert_eq!(q.character_slot, 3);
    assert_eq!(q.xp, 12345);
    assert_eq!(q.xp_debt, 10);
    assert!(!q.is_dead);
    assert!(!q.is_abandoned);
    assert_eq!(q.last_prospect_id, "Prospect_9");
    assert_eq!(q.location, "Styx");
    assert_eq!(q.unlocked_flags, vec![17, 18]);
    assert_eq!(q.meta_resources.len(), 1);
    assert_eq!(q.meta_resources[0].meta_row, "Exotic1");
    assert_eq!(q.meta_resources[0].count, 7);
    assert_eq!(q.cosmetics, cosmetics());
    assert_eq!(q.talents.len(), 1);
    assert_eq!(q.talents[0].row_name, "Talent_A");
    assert_eq!(q.talents[0].rank, 2);
    assert_eq!(encode_character(q), text);
}

#[test]
fn characters_come_back_sorted_by_slot() {
    let envelope = encode_characters(&vec![character("B", 2), character("A", 0)]);
    let cs = decode_characters(&envelope).unwrap();
    assert_eq!(cs.len(), 2);
    assert_eq!(cs[0].character_slot, 0);
    assert_eq!(cs[0].character_name, "A");
    assert_eq!(cs[1].character_slot, 2);
    assert_eq!(cs[1].character_name, "B");
}

#[test]
fn slot_file_names_wrap_to_a_signed_byte() {
    assert_eq!(inventory_file_name(3), "InventoryID_3.json");
    assert_eq!(loadout_file_name(3), "Slot_3.json");
    assert_eq!(inventory_file_name(-1), "InventoryID_-1.json");
    assert_eq!(inventory_file_name(200), "InventoryID_-56.json");
    assert_eq!(inventory_file_name(300), "InventoryID_44.json");
    assert_eq!(loadout_file_name(-300), "Slot_-44.json");
}

#[test]
fn default_inventory_is_fixed() {
    assert_eq!(
        default_inventory(),
        "{\n    \"ID\": \"MetaInventoryID_Main\",\n    \"Delta\": []\n}"
    );
}

#[test]
fn loadout_patch_sets_valid_and_keeps_other_fields() {
    let out = update_loadout_text(
        "{ \"A\": 1.5, \"Valid\": false, \"B\": [\"x\", {\"c\": null}] }",
    )
    .unwrap();
    assert_eq!(out, "{\"A\":1.5,\"B\":[\"x\",{\"c\":null}],\"Valid\":true}");
}

#[test]
fn loadout_patch_inserts_valid_when_absent() {
    let out = update_loadout_text("{\"A\": true}").unwrap();
    assert_eq!(out, "{\"A\":true,\"Valid\":true}");
}

#[test]
fn loadout_patch_rejects_non_object() {
    assert!(update_loadout_text("[1, 2]").is_none());
    assert!(update_loadout_text("not json").is_none());
}

#[test]
fn empty_envelope_decodes_to_no_characters() {
    let cs = decode_characters("{\"Characters.json\": []}").unwrap();
    assert!(cs.is_empty());
    assert_eq!(encode_characters(&cs), "{\"Characters.json\":[]}");
}

#[test]
fn extreme_counts_round_trip() {
    let p = Profile {
        user_id: String::new(),
        meta_resources: vec![
            MetaResources { meta_row: String::from("A"), count: i64::MAX },
            MetaResources { meta_row: String::from("B"), count: i64::MIN },
        ],
        unlocked_flags: Vec::new(),
        talents: Vec::new(),
    };
    let q = decode_profile(&encode_profile(&p)).unwrap();
    assert_eq!(q.meta_resources[0].count, i64::MAX);
    assert_eq!(q.meta_resources[1].count, i64::MIN);
}

#[test]
fn decode_rejects_malformed_documents() {
    assert!(decode_profile("").is_none());
    assert!(decode_profile("{\"UserID\": 3}").is_none());
    assert!(decode_profile("{\"UserID\": \"u\"}").is_none());
    assert!(decode_characters("{\"Characters.json\": [42]}").is_none());
}

#[test]
fn standard_string_escapes_decode() {
    let text = "{\"UserID\": \"a\\nb\\tc\\r\\/d\\b\\f\", \"MetaResources\": [], \"UnlockedFlags\": [], \"Talents\": []}";
    let p = decode_profile(text).unwrap();
    assert_eq!(p.user_id, "a\nb\tc\r/d\u{0008}\u{000C}");
}

#[test]
fn unsupported_escapes_are_rejected() {
    let text = "{\"UserID\": \"a\\u0041\", \"MetaResources\": [], \"UnlockedFlags\": [], \"Talents\": []}";
    assert!(decode_profile(text).is_none());
}

#[test]
fn loadout_patch_keeps_escapes_verbatim() {
    let out = update_loadout_text("{\"A\": \"x\\ty\", \"Valid\": false}").unwrap();
    assert_eq!(out, "{\"A\":\"x\\ty\",\"Valid\":true}");
}

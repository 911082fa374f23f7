//! Round-trip laws of the document codec: the tree the encoder writes for
//! a document reads back as exactly that document's fields.

use vstd::prelude::*;
use crate::codec::{cosmetics_json, cosmetics_of, character_json, character_of, flags_json,
    flags_list, flags_of, jbool_of, jint_of, jstr_of, lookup_bool, lookup_cosmetics, lookup_flags,
    lookup_int, lookup_resources, lookup_str, lookup_talents, obj_lookup, profile_json,
    profile_of, resource_json, resource_of, resources_json, resources_list, resources_of,
    slot_byte, talent_json, talent_of, talents_json, talents_list, talents_of};
use crate::json::{JsonV, esc, lemma_unesc_esc};
use crate::model::{CharacterV, Cosmetics, MetaResourcesV, ProfileV, TalentV};
use crate::num::{int_rep, lemma_int_rep_parses};

verus! {

/// A key present at `k` and nowhere earlier is the one the lookup finds.
proof fn lemma_lookup_index(entries: Seq<(Seq<char>, JsonV)>, k: int)
    requires
        0 <= k < entries.len(),
        forall|j: int| 0 <= j < k ==> (#[trigger] entries[j]).0 != entries[k].0,
    ensures
        obj_lookup(entries, entries[k].0) == Some(entries[k].1),
    decreases k,
{
    if k > 0 {
        assert(entries[0].0 != entries[k].0);
        assert(entries.drop_first()[k - 1] == entries[k]);
        assert(forall|j: int|
            0 <= j < k - 1 ==> (#[trigger] entries.drop_first()[j]).0 == entries[j + 1].0);
        lemma_lookup_index(entries.drop_first(), k - 1);
    }
}

proof fn lemma_jint_round_trip(n: i64)
    ensures
        jint_of(JsonV::Num(int_rep(n as int))) == Some(n),
{
    lemma_int_rep_parses(n as int);
}

proof fn lemma_jstr_round_trip(s: Seq<char>)
    ensures
        jstr_of(JsonV::Str(esc(s))) == Some(s),
{
    lemma_unesc_esc(s);
}

proof fn lemma_flags_round_trip(f: Seq<i64>)
    ensures
        flags_of(flags_json(f)) == Some(f),
    decreases f.len(),
{
    let mapped = f.map_values(|x: i64| JsonV::Num(int_rep(x as int)));
    if f.len() == 0 {
        assert(flags_list(mapped) == Some(Seq::<i64>::empty()));
        assert(Seq::<i64>::empty() =~= f);
    } else {
        lemma_flags_round_trip(f.drop_last());
        assert(mapped.drop_last() =~= f.drop_last().map_values(
            |x: i64| JsonV::Num(int_rep(x as int)),
        ));
        lemma_jint_round_trip(f.last());
        assert(mapped.last() == JsonV::Num(int_rep(f.last() as int)));
        assert(flags_list(mapped) == Some(f.drop_last().push(f.last())));
        assert(f.drop_last().push(f.last()) =~= f);
    }
}

proof fn lemma_resource_round_trip(r: MetaResourcesV)
    ensures
        resource_of(resource_json(r)) == Some(r),
{
    reveal_strlit("MetaRow");
    reveal_strlit("Count");
    let entries = resource_json(r)->Obj_0;
    assert(entries[0].0 == "MetaRow"@);
    assert(entries[1].0 == "Count"@);
    assert("MetaRow"@ != "Count"@);
    lemma_lookup_index(entries, 0);
    lemma_lookup_index(entries, 1);
    lemma_jstr_round_trip(r.meta_row);
    lemma_jint_round_trip(r.count);
}

proof fn lemma_resources_round_trip(rs: Seq<MetaResourcesV>)
    ensures
        resources_of(resources_json(rs)) == Some(rs),
    decreases rs.len(),
{
    let mapped = rs.map_values(|r: MetaResourcesV| resource_json(r));
    if rs.len() == 0 {
        assert(resources_list(mapped) == Some(Seq::<MetaResourcesV>::empty()));
        assert(Seq::<MetaResourcesV>::empty() =~= rs);
    } else {
        lemma_resources_round_trip(rs.drop_last());
        assert(mapped.drop_last() =~= rs.drop_last().map_values(
            |r: MetaResourcesV| resource_json(r),
        ));
        lemma_resource_round_trip(rs.last());
        assert(mapped.last() == resource_json(rs.last()));
        assert(resources_list(mapped) == Some(rs.drop_last().push(rs.last())));
        assert(rs.drop_last().push(rs.last()) =~= rs);
    }
}

proof fn lemma_talent_round_trip(t: TalentV)
    ensures
        talent_of(talent_json(t)) == Some(t),
{
    reveal_strlit("RowName");
    reveal_strlit("Rank");
    let entries = talent_json(t)->Obj_0;
    assert(entries[0].0 == "RowName"@);
    assert(entries[1].0 == "Rank"@);
    assert("RowName"@ != "Rank"@);
    lemma_lookup_index(entries, 0);
    lemma_lookup_index(entries, 1);
    lemma_jstr_round_trip(t.row_name);
    lemma_jint_round_trip(t.rank);
}

proof fn lemma_talents_round_trip(ts: Seq<TalentV>)
    ensures
        talents_of(talents_json(ts)) == Some(ts),
    decreases ts.len(),
{
    let mapped = ts.map_values(|t: TalentV| talent_json(t));
    if ts.len() == 0 {
        assert(talents_list(mapped) == Some(Seq::<TalentV>::empty()));
        assert(Seq::<TalentV>::empty() =~= ts);
    } else {
        lemma_talents_round_trip(ts.drop_last());
        assert(mapped.drop_last() =~= ts.drop_last().map_values(
            |t: TalentV| talent_json(t),
        ));
        lemma_talent_round_trip(ts.last());
        assert(mapped.last() == talent_json(ts.last()));
        assert(talents_list(mapped) == Some(ts.drop_last().push(ts.last())));
        assert(ts.drop_last().push(ts.last()) =~= ts);
    }
}

/// Round trip of the Profile document: the tree the encoder writes for a
/// profile decodes back to exactly that profile.
pub proof fn lemma_profile_round_trip(p: ProfileV)
    ensures
        profile_of(profile_json(p)) == Some(p),
{
    reveal_strlit("UserID");
    reveal_strlit("MetaResources");
    reveal_strlit("UnlockedFlags");
    reveal_strlit("Talents");
    assert("MetaResources"@[0] != "UnlockedFlags"@[0]);
    let entries = profile_json(p)->Obj_0;
    assert(entries[0].0 == "UserID"@);
    assert(entries[1].0 == "MetaResources"@);
    assert(entries[2].0 == "UnlockedFlags"@);
    assert(entries[3].0 == "Talents"@);
    assert(entries[0].0.len() != entries[1].0.len());
    assert(entries[0].0 != entries[1].0);
    assert(entries[0].0.len() != entries[2].0.len());
    assert(entries[0].0 != entries[2].0);
    assert(entries[1].0[0] != entries[2].0[0]);
    assert(entries[1].0 != entries[2].0);
    assert(entries[0].0.len() != entries[3].0.len());
    assert(entries[0].0 != entries[3].0);
    assert(entries[1].0.len() != entries[3].0.len());
    assert(entries[1].0 != entries[3].0);
    assert(entries[2].0.len() != entries[3].0.len());
    assert(entries[2].0 != entries[3].0);
    lemma_lookup_index(entries, 0);
    lemma_lookup_index(entries, 1);
    lemma_lookup_index(entries, 2);
    lemma_lookup_index(entries, 3);
    lemma_jstr_round_trip(p.user_id);
    lemma_resources_round_trip(p.meta_resources);
    lemma_flags_round_trip(p.unlocked_flags);
    lemma_talents_round_trip(p.talents);
    assert(lookup_str(entries, "UserID"@) == Some(p.user_id));
    assert(lookup_resources(entries, "MetaResources"@) == Some(p.meta_resources));
    assert(lookup_flags(entries, "UnlockedFlags"@) == Some(p.unlocked_flags));
    assert(lookup_talents(entries, "Talents"@) == Some(p.talents));
    assert(profile_of(profile_json(p)) is Some);
    assert(profile_of(profile_json(p))->Some_0 =~~= p);
}

proof fn lemma_cosmetics_round_trip(c: Cosmetics)
    ensures
        cosmetics_of(cosmetics_json(c)) == Some(c),
{
    reveal_strlit("Customization_Head");
    reveal_strlit("Customization_Hair");
    reveal_strlit("Customization_HairColor");
    reveal_strlit("Customization_Body");
    reveal_strlit("Customization_BodyColor");
    reveal_strlit("Customization_SkinTone");
    reveal_strlit("Customization_HeadTattoo");
    reveal_strlit("Customization_HeadScar");
    reveal_strlit("Customization_HeadFacialHair");
    reveal_strlit("Customization_CapLogo");
    reveal_strlit("IsMale");
    reveal_strlit("Customization_Voice");
    reveal_strlit("Customization_EyeColor");
    assert("Customization_Head"@[15] != "Customization_Hair"@[15]);
    assert("Customization_Head"@[14] != "Customization_Body"@[14]);
    assert("Customization_Hair"@[14] != "Customization_Body"@[14]);
    assert("Customization_HairColor"@[14] != "Customization_BodyColor"@[14]);
    assert("Customization_SkinTone"@[14] != "Customization_HeadScar"@[14]);
    assert("Customization_SkinTone"@[14] != "Customization_EyeColor"@[14]);
    assert("Customization_HeadScar"@[14] != "Customization_EyeColor"@[14]);
    let entries = cosmetics_json(c)->Obj_0;
    assert(entries[0].0[15] != entries[1].0[15]);
    assert(entries[0].0 != entries[1].0);
    assert(entries[0].0.len() != entries[2].0.len());
    assert(entries[0].0 != entries[2].0);
    assert(entries[1].0.len() != entries[2].0.len());
    assert(entries[1].0 != entries[2].0);
    assert(entries[0].0[14] != entries[3].0[14]);
    assert(entries[0].0 != entries[3].0);
    assert(entries[1].0[14] != entries[3].0[14]);
    assert(entries[1].0 != entries[3].0);
    assert(entries[2].0.len() != entries[3].0.len());
    assert(entries[2].0 != entries[3].0);
    assert(entries[0].0.len() != entries[4].0.len());
    assert(entries[0].0 != entries[4].0);
    assert(entries[1].0.len() != entries[4].0.len());
    assert(entries[1].0 != entries[4].0);
    assert(entries[2].0[14] != entries[4].0[14]);
    assert(entries[2].0 != entries[4].0);
    assert(entries[3].0.len() != entries[4].0.len());
    assert(entries[3].0 != entries[4].0);
    assert(entries[0].0.len() != entries[5].0.len());
    assert(entries[0].0 != entries[5].0);
    assert(entries[1].0.len() != entries[5].0.len());
    assert(entries[1].0 != entries[5].0);
    assert(entries[2].0.len() != entries[5].0.len());
    assert(entries[2].0 != entries[5].0);
    assert(entries[3].0.len() != entries[5].0.len());
    assert(entries[3].0 != entries[5].0);
    assert(entries[4].0.len() != entries[5].0.len());
    assert(entries[4].0 != entries[5].0);
    assert(entries[0].0.len() != entries[6].0.len());
    assert(entries[0].0 != entries[6].0);
    assert(entries[1].0.len() != entries[6].0.len());
    assert(entries[1].0 != entries[6].0);
    assert(entries[2].0.len() != entries[6].0.len());
    assert(entries[2].0 != entries[6].0);
    assert(entries[3].0.len() != entries[6].0.len());
    assert(entries[3].0 != entries[6].0);
    assert(entries[4].0.len() != entries[6].0.len());
    assert(entries[4].0 != entries[6].0);
    assert(entries[5].0.len() != entries[6].0.len());
    assert(entries[5].0 != entries[6].0);
    assert(entries[0].0.len() != entries[7].0.len());
    assert(entries[0].0 != entries[7].0);
    assert(entries[1].0.len() != entries[7].0.len());
    assert(entries[1].0 != entries[7].0);
    assert(entries[2].0.len() != entries[7].0.len());
    assert(entries[2].0 != entries[7].0);
    assert(entries[3].0.len() != entries[7].0.len());
    assert(entries[3].0 != entries[7].0);
    assert(entries[4].0.len() != entries[7].0.len());
    assert(entries[4].0 != entries[7].0);
    assert(entries[5].0[14] != entries[7].0[14]);
    assert(entries[5].0 != entries[7].0);
    assert(entries[6].0.len() != entries[7].0.len());
    assert(entries[6].0 != entries[7].0);
    assert(entries[0].0.len() != entries[8].0.len());
    assert(entries[0].0 != entries[8].0);
    assert(entries[1].0.len() != entries[8].0.len());
    assert(entries[1].0 != entries[8].0);
    assert(entries[2].0.len() != entries[8].0.len());
    assert(entries[2].0 != entries[8].0);
    assert(entries[3].0.len() != entries[8].0.len());
    assert(entries[3].0 != entries[8].0);
    assert(entries[4].0.len() != entries[8].0.len());
    assert(entries[4].0 != entries[8].0);
    assert(entries[5].0.len() != entries[8].0.len());
    assert(entries[5].0 != entries[8].0);
    assert(entries[6].0.len() != entries[8].0.len());
    assert(entries[6].0 != entries[8].0);
    assert(entries[7].0.len() != entries[8].0.len());
    assert(entries[7].0 != entries[8].0);
    assert(entries[0].0.len() != entries[9].0.len());
    assert(entries[0].0 != entries[9].0);
    assert(entries[1].0.len() != entries[9].0.len());
    assert(entries[1].0 != entries[9].0);
    assert(entries[2].0.len() != entries[9].0.len());
    assert(entries[2].0 != entries[9].0);
    assert(entries[3].0.len() != entries[9].0.len());
    assert(entries[3].0 != entries[9].0);
    assert(entries[4].0.len() != entries[9].0.len());
    assert(entries[4].0 != entries[9].0);
    assert(entries[5].0.len() != entries[9].0.len());
    assert(entries[5].0 != entries[9].0);
    assert(entries[6].0.len() != entries[9].0.len());
    assert(entries[6].0 != entries[9].0);
    assert(entries[7].0.len() != entries[9].0.len());
    assert(entries[7].0 != entries[9].0);
    assert(entries[8].0.len() != entries[9].0.len());
    assert(entries[8].0 != entries[9].0);
    assert(entries[0].0.len() != entries[10].0.len());
    assert(entries[0].0 != entries[10].0);
    assert(entries[1].0.len() != entries[10].0.len());
    assert(entries[1].0 != entries[10].0);
    assert(entries[2].0.len() != entries[10].0.len());
    assert(entries[2].0 != entries[10].0);
    assert(entries[3].0.len() != entries[10].0.len());
    assert(entries[3].0 != entries[10].0);
    assert(entries[4].0.len() != entries[10].0.len());
    assert(entries[4].0 != entries[10].0);
    assert(entries[5].0.len() != entries[10].0.len());
    assert(entries[5].0 != entries[10].0);
    assert(entries[6].0.len() != entries[10].0.len());
    assert(entries[6].0 != entries[10].0);
    assert(entries[7].0.len() != entries[10].0.len());
    assert(entries[7].0 != entries[10].0);
    assert(entries[8].0.len() != entries[10].0.len());
    assert(entries[8].0 != entries[10].0);
    assert(entries[9].0.len() != entries[10].0.len());
    assert(entries[9].0 != entries[10].0);
    assert(entries[0].0.len() != entries[11].0.len());
    assert(entries[0].0 != entries[11].0);
    assert(entries[1].0.len() != entries[11].0.len());
    assert(entries[1].0 != entries[11].0);
    assert(entries[2].0.len() != entries[11].0.len());
    assert(entries[2].0 != entries[11].0);
    assert(entries[3].0.len() != entries[11].0.len());
    assert(entries[3].0 != entries[11].0);
    assert(entries[4].0.len() != entries[11].0.len());
    assert(entries[4].0 != entries[11].0);
    assert(entries[5].0.len() != entries[11].0.len());
    assert(entries[5].0 != entries[11].0);
    assert(entries[6].0.len() != entries[11].0.len());
    assert(entries[6].0 != entries[11].0);
    assert(entries[7].0.len() != entries[11].0.len());
    assert(entries[7].0 != entries[11].0);
    assert(entries[8].0.len() != entries[11].0.len());
    assert(entries[8].0 != entries[11].0);
    assert(entries[9].0.len() != entries[11].0.len());
    assert(entries[9].0 != entries[11].0);
    assert(entries[10].0.len() != entries[11].0.len());
    assert(entries[10].0 != entries[11].0);
    assert(entries[0].0.len() != entries[12].0.len());
    assert(entries[0].0 != entries[12].0);
    assert(entries[1].0.len() != entries[12].0.len());
    assert(entries[1].0 != entries[12].0);
    assert(entries[2].0.len() != entries[12].0.len());
    assert(entries[2].0 != entries[12].0);
    assert(entries[3].0.len() != entries[12].0.len());
    assert(entries[3].0 != entries[12].0);
    assert(entries[4].0.len() != entries[12].0.len());
    assert(entries[4].0 != entries[12].0);
    assert(entries[5].0[14] != entries[12].0[14]);
    assert(entries[5].0 != entries[12].0);
    assert(entries[6].0.len() != entries[12].0.len());
    assert(entries[6].0 != entries[12].0);
    assert(entries[7].0[14] != entries[12].0[14]);
    assert(entries[7].0 != entries[12].0);
    assert(entries[8].0.len() != entries[12].0.len());
    assert(entries[8].0 != entries[12].0);
    assert(entries[9].0.len() != entries[12].0.len());
    assert(entries[9].0 != entries[12].0);
    assert(entries[10].0.len() != entries[12].0.len());
    assert(entries[10].0 != entries[12].0);
    assert(entries[11].0.len() != entries[12].0.len());
    assert(entries[11].0 != entries[12].0);
    lemma_lookup_index(entries, 0);
    lemma_lookup_index(entries, 1);
    lemma_lookup_index(entries, 2);
    lemma_lookup_index(entries, 3);
    lemma_lookup_index(entries, 4);
    lemma_lookup_index(entries, 5);
    lemma_lookup_index(entries, 6);
    lemma_lookup_index(entries, 7);
    lemma_lookup_index(entries, 8);
    lemma_lookup_index(entries, 9);
    lemma_lookup_index(entries, 10);
    lemma_lookup_index(entries, 11);
    lemma_lookup_index(entries, 12);
    lemma_jint_round_trip(c.customization_head);
    lemma_jint_round_trip(c.customization_hair);
    lemma_jint_round_trip(c.customization_hair_color);
    lemma_jint_round_trip(c.customization_body);
    lemma_jint_round_trip(c.customization_body_color);
    lemma_jint_round_trip(c.customization_skin_tone);
    lemma_jint_round_trip(c.customization_head_tattoo);
    lemma_jint_round_trip(c.customization_head_scar);
    lemma_jint_round_trip(c.customization_head_facial_hair);
    lemma_jint_round_trip(c.customization_cap_logo);
    lemma_jint_round_trip(c.customization_voice);
    lemma_jint_round_trip(c.customization_eye_color);
    assert(cosmetics_of(cosmetics_json(c)) is Some);
    assert(cosmetics_of(cosmetics_json(c))->Some_0 == c);
}

/// Round trip of one Character document: the tree the encoder writes for
/// a character decodes back to exactly that character, provided the
/// character's two derived file names agree with its slot, as every
/// loaded character's do.
#[verifier::rlimit(100)]
pub proof fn lemma_character_round_trip(c: CharacterV)
    requires
        c.inventory_file == "InventoryID_"@ + int_rep(slot_byte(c.character_slot)) + ".json"@,
        c.loadout_file == "Slot_"@ + int_rep(slot_byte(c.character_slot)) + ".json"@,
    ensures
        character_of(character_json(c)) == Some(c),
{
    reveal_strlit("CharacterName");
    reveal_strlit("ChrSlot");
    reveal_strlit("XP");
    reveal_strlit("XP_Debt");
    reveal_strlit("IsDead");
    reveal_strlit("IsAbandoned");
    reveal_strlit("LastProspectId");
    reveal_strlit("Location");
    reveal_strlit("UnlockedFlags");
    reveal_strlit("MetaResources");
    reveal_strlit("Cosmetic");
    reveal_strlit("Talents");
    assert("CharacterName"@[0] != "UnlockedFlags"@[0]);
    assert("CharacterName"@[0] != "MetaResources"@[0]);
    assert("UnlockedFlags"@[0] != "MetaResources"@[0]);
    assert("ChrSlot"@[0] != "XP_Debt"@[0]);
    assert("ChrSlot"@[0] != "Talents"@[0]);
    assert("XP_Debt"@[0] != "Talents"@[0]);
    assert("Location"@[0] != "Cosmetic"@[0]);
    let entries = character_json(c)->Obj_0;
    assert(entries[0].0.len() != entries[1].0.len());
    assert(entries[0].0 != entries[1].0);
    assert(entries[0].0.len() != entries[2].0.len());
    assert(entries[0].0 != entries[2].0);
    assert(entries[1].0.len() != entries[2].0.len());
    assert(entries[1].0 != entries[2].0);
    assert(entries[0].0.len() != entries[3].0.len());
    assert(entries[0].0 != entries[3].0);
    assert(entries[1].0[0] != entries[3].0[0]);
    assert(entries[1].0 != entries[3].0);
    assert(entries[2].0.len() != entries[3].0.len());
    assert(entries[2].0 != entries[3].0);
    assert(entries[0].0.len() != entries[4].0.len());
    assert(entries[0].0 != entries[4].0);
    assert(entries[1].0.len() != entries[4].0.len());
    assert(entries[1].0 != entries[4].0);
    assert(entries[2].0.len() != entries[4].0.len());
    assert(entries[2].0 != entries[4].0);
    assert(entries[3].0.len() != entries[4].0.len());
    assert(entries[3].0 != entries[4].0);
    assert(entries[0].0.len() != entries[5].0.len());
    assert(entries[0].0 != entries[5].0);
    assert(entries[1].0.len() != entries[5].0.len());
    assert(entries[1].0 != entries[5].0);
    assert(entries[2].0.len() != entries[5].0.len());
    assert(entries[2].0 != entries[5].0);
    assert(entries[3].0.len() != entries[5].0.len());
    assert(entries[3].0 != entries[5].0);
    assert(entries[4].0.len() != entries[5].0.len());
    assert(entries[4].0 != entries[5].0);
    assert(entries[0].0.len() != entries[6].0.len());
    assert(entries[0].0 != entries[6].0);
    assert(entries[1].0.len() != entries[6].0.len());
    assert(entries[1].0 != entries[6].0);
    assert(entries[2].0.len() != entries[6].0.len());
    assert(entries[2].0 != entries[6].0);
    assert(entries[3].0.len() != entries[6].0.len());
    assert(entries[3].0 != entries[6].0);
    assert(entries[4].0.len() != entries[6].0.len());
    assert(entries[4].0 != entries[6].0);
    assert(entries[5].0.len() != entries[6].0.len());
    assert(entries[5].0 != entries[6].0);
    assert(entries[0].0.len() != entries[7].0.len());
    assert(entries[0].0 != entries[7].0);
    assert(entries[1].0.len() != entries[7].0.len());
    assert(entries[1].0 != entries[7].0);
    assert(entries[2].0.len() != entries[7].0.len());
    assert(entries[2].0 != entries[7].0);
    assert(entries[3].0.len() != entries[7].0.len());
    assert(entries[3].0 != entries[7].0);
    assert(entries[4].0.len() != entries[7].0.len());
    assert(entries[4].0 != entries[7].0);
    assert(entries[5].0.len() != entries[7].0.len());
    assert(entries[5].0 != entries[7].0);
    assert(entries[6].0.len() != entries[7].0.len());
    assert(entries[6].0 != entries[7].0);
    assert(entries[0].0[0] != entries[8].0[0]);
    assert(entries[0].0 != entries[8].0);
    assert(entries[1].0.len() != entries[8].0.len());
    assert(entries[1].0 != entries[8].0);
    assert(entries[2].0.len() != entries[8].0.len());
    assert(entries[2].0 != entries[8].0);
    assert(entries[3].0.len() != entries[8].0.len());
    assert(entries[3].0 != entries[8].0);
    assert(entries[4].0.len() != entries[8].0.len());
    assert(entries[4].0 != entries[8].0);
    assert(entries[5].0.len() != entries[8].0.len());
    assert(entries[5].0 != entries[8].0);
    assert(entries[6].0.len() != entries[8].0.len());
    assert(entries[6].0 != entries[8].0);
    assert(entries[7].0.len() != entries[8].0.len());
    assert(entries[7].0 != entries[8].0);
    assert(entries[0].0[0] != entries[9].0[0]);
    assert(entries[0].0 != entries[9].0);
    assert(entries[1].0.len() != entries[9].0.len());
    assert(entries[1].0 != entries[9].0);
    assert(entries[2].0.len() != entries[9].0.len());
    assert(entries[2].0 != entries[9].0);
    assert(entries[3].0.len() != entries[9].0.len());
    assert(entries[3].0 != entries[9].0);
    assert(entries[4].0.len() != entries[9].0.len());
    assert(entries[4].0 != entries[9].0);
    assert(entries[5].0.len() != entries[9].0.len());
    assert(entries[5].0 != entries[9].0);
    assert(entries[6].0.len() != entries[9].0.len());
    assert(entries[6].0 != entries[9].0);
    assert(entries[7].0.len() != entries[9].0.len());
    assert(entries[7].0 != entries[9].0);
    assert(entries[8].0[0] != entries[9].0[0]);
    assert(entries[8].0 != entries[9].0);
    assert(entries[0].0.len() != entries[10].0.len());
    assert(entries[0].0 != entries[10].0);
    assert(entries[1].0.len() != entries[10].0.len());
    assert(entries[1].0 != entries[10].0);
    assert(entries[2].0.len() != entries[10].0.len());
    assert(entries[2].0 != entries[10].0);
    assert(entries[3].0.len() != entries[10].0.len());
    assert(entries[3].0 != entries[10].0);
    assert(entries[4].0.len() != entries[10].0.len());
    assert(entries[4].0 != entries[10].0);
    assert(entries[5].0.len() != entries[10].0.len());
    assert(entries[5].0 != entries[10].0);
    assert(entries[6].0.len() != entries[10].0.len());
    assert(entries[6].0 != entries[10].0);
    assert(entries[7].0[0] != entries[10].0[0]);
    assert(entries[7].0 != entries[10].0);
    assert(entries[8].0.len() != entries[10].0.len());
    assert(entries[8].0 != entries[10].0);
    assert(entries[9].0.len() != entries[10].0.len());
    assert(entries[9].0 != entries[10].0);
    assert(entries[0].0.len() != entries[11].0.len());
    assert(entries[0].0 != entries[11].0);
    assert(entries[1].0[0] != entries[11].0[0]);
    assert(entries[1].0 != entries[11].0);
    assert(entries[2].0.len() != entries[11].0.len());
    assert(entries[2].0 != entries[11].0);
    assert(entries[3].0[0] != entries[11].0[0]);
    assert(entries[3].0 != entries[11].0);
    assert(entries[4].0.len() != entries[11].0.len());
    assert(entries[4].0 != entries[11].0);
    assert(entries[5].0.len() != entries[11].0.len());
    assert(entries[5].0 != entries[11].0);
    assert(entries[6].0.len() != entries[11].0.len());
    assert(entries[6].0 != entries[11].0);
    assert(entries[7].0.len() != entries[11].0.len());
    assert(entries[7].0 != entries[11].0);
    assert(entries[8].0.len() != entries[11].0.len());
    assert(entries[8].0 != entries[11].0);
    assert(entries[9].0.len() != entries[11].0.len());
    assert(entries[9].0 != entries[11].0);
    assert(entries[10].0.len() != entries[11].0.len());
    assert(entries[10].0 != entries[11].0);
    lemma_lookup_index(entries, 0);
    lemma_lookup_index(entries, 1);
    lemma_lookup_index(entries, 2);
    lemma_lookup_index(entries, 3);
    lemma_lookup_index(entries, 4);
    lemma_lookup_index(entries, 5);
    lemma_lookup_index(entries, 6);
    lemma_lookup_index(entries, 7);
    lemma_lookup_index(entries, 8);
    lemma_lookup_index(entries, 9);
    lemma_lookup_index(entries, 10);
    lemma_lookup_index(entries, 11);
    lemma_jstr_round_trip(c.character_name);
    lemma_jint_round_trip(c.character_slot);
    lemma_jint_round_trip(c.xp);
    lemma_jint_round_trip(c.xp_debt);
    lemma_jstr_round_trip(c.last_prospect_id);
    lemma_jstr_round_trip(c.location);
    lemma_flags_round_trip(c.unlocked_flags);
    lemma_resources_round_trip(c.meta_resources);
    lemma_cosmetics_round_trip(c.cosmetics);
    lemma_talents_round_trip(c.talents);
    assert(lookup_str(entries, "CharacterName"@) == Some(c.character_name));
    assert(lookup_int(entries, "ChrSlot"@) == Some(c.character_slot));
    assert(lookup_int(entries, "XP"@) == Some(c.xp));
    assert(lookup_int(entries, "XP_Debt"@) == Some(c.xp_debt));
    assert(lookup_bool(entries, "IsDead"@) == Some(c.is_dead));
    assert(lookup_bool(entries, "IsAbandoned"@) == Some(c.is_abandoned));
    assert(lookup_str(entries, "LastProspectId"@) == Some(c.last_prospect_id));
    assert(lookup_str(entries, "Location"@) == Some(c.location));
    assert(lookup_flags(entries, "UnlockedFlags"@) == Some(c.unlocked_flags));
    assert(lookup_resources(entries, "MetaResources"@) == Some(c.meta_resources));
    assert(lookup_cosmetics(entries, "Cosmetic"@) == Some(c.cosmetics));
    assert(lookup_talents(entries, "Talents"@) == Some(c.talents));
    assert(character_of(character_json(c)) is Some);
    assert(character_of(character_json(c))->Some_0 =~~= c);
}


} // verus!

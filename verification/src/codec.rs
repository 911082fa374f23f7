//! The document codec and the persistence helpers around it: canonical
//! encoding of the Profile and Character documents, decoding of the two
//! save files, the derived per-slot file names, the fixed inventory
//! document, and the loadout patch.

use vstd::prelude::*;
use crate::json::{Json, JsonV, emit, wf, esc, unesc, escape_str, unescape_str, to_text, parse_text, spec_doc};
use crate::model::{Character, CharacterV, Cosmetics, MetaResources, MetaResourcesV, Profile,
    ProfileV, Talent, TalentV};
use crate::num::{int_rep, int_to_string, parse_int, spec_parse_int};
use vstd::multiset::Multiset;

verus! {

broadcast use
    vstd::prelude::Seq::to_multiset_ensures,
    vstd::std_specs::vec::axiom_vec_index_decreases;

/// The slot number reduced to its low byte read as a signed value: the
/// wrap the loader applies before formatting file names.
pub open spec fn slot_byte(slot: i64) -> int {
    let m = (slot as int) % 256;
    if m >= 128 {
        m - 256
    } else {
        m
    }
}

/// The low byte of `slot` as a signed value.
pub fn slot_byte_of(slot: i64) -> (r: i64)
    ensures
        r == slot_byte(slot),
        -128 <= r <= 127,
{
    let m: i64 = if slot >= 0 {
        slot % 256
    } else {
        let q: i64 = (-(slot + 1)) % 256;
        assert(255 - q == (slot as int) % 256) by (nonlinear_arith)
            requires
                slot < 0,
                q == (-(slot + 1)) % 256,
        ;
        255 - q
    };
    assert(m == (slot as int) % 256);
    if m >= 128 {
        m - 256
    } else {
        m
    }
}

/// The derived inventory file name for a slot.
pub fn inventory_file_name(slot: i64) -> (r: String)
    ensures
        r@ == "InventoryID_"@ + int_rep(slot_byte(slot)) + ".json"@,
{
    let mut out = String::new();
    out.append("InventoryID_");
    let digits = int_to_string(slot_byte_of(slot));
    out.append(digits.as_str());
    out.append(".json");
    assert(out@ =~= "InventoryID_"@ + int_rep(slot_byte(slot)) + ".json"@);
    out
}

/// The derived loadout file name for a slot.
pub fn loadout_file_name(slot: i64) -> (r: String)
    ensures
        r@ == "Slot_"@ + int_rep(slot_byte(slot)) + ".json"@,
{
    let mut out = String::new();
    out.append("Slot_");
    let digits = int_to_string(slot_byte_of(slot));
    out.append(digits.as_str());
    out.append(".json");
    assert(out@ =~= "Slot_"@ + int_rep(slot_byte(slot)) + ".json"@);
    out
}

/// The document a restore writes over the whole inventory file.
pub fn default_inventory() -> (r: String)
    ensures
        r@ == "{\n    \"ID\": \"MetaInventoryID_Main\",\n    \"Delta\": []\n}"@,
{
    String::from_str("{\n    \"ID\": \"MetaInventoryID_Main\",\n    \"Delta\": []\n}")
}

/// A field map with every `Valid` entry dropped and one `Valid: true`
/// appended; all other fields stay, in order, untouched.
pub open spec fn set_valid(entries: Seq<(Seq<char>, JsonV)>) -> Seq<(Seq<char>, JsonV)> {
    entries.filter(|e: (Seq<char>, JsonV)| e.0 != "Valid"@).push(("Valid"@, JsonV::Bool(true)))
}

/// Set the `Valid` field of a parsed field map to `true`, leaving every
/// other field as it stands. Fails when the document is not a field map.
pub fn patch_entries(v: Json) -> (r: Option<Json>)
    ensures
        r matches Some(w) ==> v.deep_view() is Obj && w.deep_view() == JsonV::Obj(
            set_valid(v.deep_view()->Obj_0),
        ),
        r is None ==> !(v.deep_view() is Obj),
{
    let ghost vv = v.deep_view();
    let mut entries = match v {
        Json::Obj(entries) => entries,
        _ => {
            return None;
        },
    };
    let ghost ev = vv->Obj_0;
    proof {
        assert(ev.len() == entries@.len());
        assert(forall|k: int|
            0 <= k < ev.len() ==> #[trigger] ev[k] == (entries@[k].0@, entries@[k].1.deep_view()));
        reveal_with_fuel(Seq::<(Seq<char>, JsonV)>::filter, 1);
        assert(ev.take(0) =~= Seq::<(Seq<char>, JsonV)>::empty());
    }
    let ghost total = ev.len() as int;
    let valid_key = String::from_str("Valid");
    let mut out: Vec<(String, Json)> = Vec::new();
    while entries.len() > 0
        invariant
            entries.len() <= ev.len(),
            total == ev.len(),
            valid_key@ == "Valid"@,
            entries.deep_view() =~~= ev.skip(total - entries.len()),
            out.deep_view() =~~= ev.take(total - entries.len()).filter(
                |e: (Seq<char>, JsonV)| e.0 != "Valid"@,
            ),
        decreases entries.len(),
    {
        let ghost done = total - entries.len() as int;
        let ghost oldview = entries.deep_view();
        let e = entries.remove(0);
        proof {
            reveal_with_fuel(Seq::<(Seq<char>, JsonV)>::filter, 2);
            assert(e.deep_view() == ev.skip(done)[0]);
            assert(ev.skip(done)[0] == ev[done]);
            assert forall|k: int| 0 <= k < entries.deep_view().len() implies #[trigger] entries.deep_view()[k]
                == ev.skip(done + 1)[k] by {
                assert(entries.deep_view()[k] == oldview[k + 1]);
                assert(oldview[k + 1] == ev.skip(done)[k + 1]);
                assert(ev.skip(done)[k + 1] == ev[done + 1 + k]);
            }
            assert(entries.deep_view() =~~= ev.skip(done + 1));
            assert(ev.take(done + 1).drop_last() =~= ev.take(done));
            assert(ev.take(done + 1).last() == ev[done]);
        }
        if !(e.0 == valid_key) {
            let ghost before = out.deep_view();
            assert(e.deep_view().0 != "Valid"@);
            out.push(e);
            proof {
                assert(out.deep_view() =~~= before.push(ev[done]));
            }
        } else {
            assert(e.deep_view().0 == "Valid"@);
        }
    }
    proof {
        assert(ev.take(total) =~= ev);
    }
    let ghost before = out.deep_view();
    out.push((valid_key, Json::Bool(true)));
    proof {
        assert(out.deep_view() =~~= before.push(("Valid"@, JsonV::Bool(true))));
        assert(out.deep_view() =~~= set_valid(ev));
    }
    let r = Json::Obj(out);
    assert(r.deep_view()->Obj_0 =~~= out.deep_view());
    assert(r.deep_view() =~~= JsonV::Obj(set_valid(ev)));
    Some(r)
}

/// Rewrite a loadout document with its `Valid` field set to true: the
/// whole file is re-emitted canonically, every other field of the parsed
/// map kept in order with its value as parsed. Fails exactly when the
/// text does not read as a field map.
pub fn update_loadout_text(s: &str) -> (r: Option<String>)
    ensures
        r matches Some(out) ==> spec_doc(s@) matches Some(v) && v is Obj && out@ == emit(
            JsonV::Obj(set_valid(v->Obj_0)),
        ),
        r is None ==> !(spec_doc(s@) matches Some(v) && v is Obj),
{
    let parsed = match parse_text(s) {
        Some(p) => p,
        None => {
            return None;
        },
    };
    let ghost pv = parsed.deep_view();
    let patched = match patch_entries(parsed) {
        Some(w) => w,
        None => {
            return None;
        },
    };
    let out = to_text(&patched);
    proof {
        assert(spec_doc(s@) == Some(pv) && pv is Obj && out@ == emit(
            JsonV::Obj(set_valid(pv->Obj_0)),
        ));
    }
    Some(out)
}

/// Whether a character sequence is ordered by ascending slot number.
pub open spec fn sorted_by_slot(s: Seq<CharacterV>) -> bool {
    forall|i: int, j: int| 0 <= i < j < s.len() ==> s[i].character_slot <= s[j].character_slot
}

/// Sort characters ascending by slot number; the collection keeps exactly
/// the same characters.
#[verifier::loop_isolation(false)]
pub fn sort_by_slot_vec(chars: &mut Vec<Character>)
    ensures
        sorted_by_slot(final(chars).deep_view()),
        final(chars).deep_view().to_multiset() == old(chars).deep_view().to_multiset(),
{
    if chars.len() <= 1 {
        return ;
    }
    let mut i: usize = 1;
    while i < chars.len()
        invariant
            1 <= i <= chars.len(),
            chars.len() == old(chars).len(),
            sorted_by_slot(chars.deep_view().take(i as int)),
            chars.deep_view().to_multiset() == old(chars).deep_view().to_multiset(),
        decreases chars.len() - i,
    {
        proof {
            assert forall|a: int, b: int|
                0 <= a < b < i implies (#[trigger] chars.deep_view()[a]).character_slot
                <= (#[trigger] chars.deep_view()[b]).character_slot by {
                assert(chars.deep_view().take(i as int)[a] == chars.deep_view()[a]);
                assert(chars.deep_view().take(i as int)[b] == chars.deep_view()[b]);
            }
        }
        let mut j: usize = i;
        while j > 0
            invariant
                0 <= j <= i < chars.len(),
                chars.len() == old(chars).len(),
                chars.deep_view().to_multiset() == old(chars).deep_view().to_multiset(),
                forall|a: int, b: int|
                    0 <= a < b <= i && a != j && b != j
                        ==> (#[trigger] chars.deep_view()[a]).character_slot
                        <= (#[trigger] chars.deep_view()[b]).character_slot,
                forall|k: int|
                    j < k <= i ==> chars.deep_view()[j as int].character_slot
                        <= (#[trigger] chars.deep_view()[k]).character_slot,
            decreases j,
        {
            if chars[j - 1].character_slot <= chars[j].character_slot {
                break ;
            }
            let ghost before = chars.deep_view();
            swap_adjacent(chars, j - 1);
            proof {
                lemma_swap_multiset(before, j - 1);
            }
            j -= 1;
        }
        proof {
            assert forall|a: int, b: int|
                0 <= a < b < i + 1 implies (#[trigger] chars.deep_view()[a]).character_slot
                <= (#[trigger] chars.deep_view()[b]).character_slot by {
                if a == j && b != j {
                } else if b == j && a != j {
                    if j > 0 {
                        assert(chars.deep_view()[j - 1].character_slot
                            <= chars.deep_view()[j as int].character_slot);
                        if a < j - 1 {
                            assert(chars.deep_view()[a].character_slot
                                <= chars.deep_view()[j - 1].character_slot);
                        }
                    }
                }
            }
            assert(sorted_by_slot(chars.deep_view().take(i + 1))) by {
                assert forall|a: int, b: int|
                    0 <= a < b < i + 1 implies (#[trigger] chars.deep_view().take(
                        i + 1,
                    )[a]).character_slot <= (#[trigger] chars.deep_view().take(
                        i + 1,
                    )[b]).character_slot by {
                    assert(chars.deep_view().take(i + 1)[a] == chars.deep_view()[a]);
                    assert(chars.deep_view().take(i + 1)[b] == chars.deep_view()[b]);
                }
            }
        }
        i += 1;
    }
    proof {
        assert(chars.deep_view().take(chars.len() as int) =~= chars.deep_view());
    }
}

/// Swapping two adjacent entries keeps the multiset of entries.
proof fn lemma_swap_multiset(s: Seq<CharacterV>, p: int)
    requires
        0 <= p,
        p + 1 < s.len(),
    ensures
        s.update(p, s[p + 1]).update(p + 1, s[p]).to_multiset() == s.to_multiset(),
{
    let swapped = s.update(p, s[p + 1]).update(p + 1, s[p]);
    assert(s =~= s.take(p) + seq![s[p]] + seq![s[p + 1]] + s.skip(p + 2));
    assert(swapped =~= s.take(p) + seq![s[p + 1]] + seq![s[p]] + s.skip(p + 2));
    lemma_multiset_of_four(s.take(p), s[p], s[p + 1], s.skip(p + 2));
    lemma_multiset_of_four(s.take(p), s[p + 1], s[p], s.skip(p + 2));
    assert(s.to_multiset() =~= swapped.to_multiset());
}

/// The multiset of `a + [x] + [y] + b` is insertion-order free.
proof fn lemma_multiset_of_four(a: Seq<CharacterV>, x: CharacterV, y: CharacterV, b: Seq<CharacterV>)
    ensures
        (a + seq![x] + seq![y] + b).to_multiset() == a.to_multiset().insert(x).insert(y).add(
            b.to_multiset(),
        ),
{
    vstd::seq_lib::lemma_multiset_commutative(a + seq![x] + seq![y], b);
    assert(a + seq![x] + seq![y] =~= a.push(x).push(y));
    a.to_multiset_ensures();
    a.push(x).to_multiset_ensures();
    assert(a.push(x).to_multiset() =~= a.to_multiset().insert(x));
    assert(a.push(x).push(y).to_multiset() =~= a.push(x).to_multiset().insert(y));
    assert((a + seq![x] + seq![y] + b).to_multiset() =~= a.to_multiset().insert(x).insert(y).add(
        b.to_multiset(),
    ));
}

/// Swap the entries at `p` and `p + 1`.
fn swap_adjacent(chars: &mut Vec<Character>, p: usize)
    requires
        p + 1 < old(chars).len(),
    ensures
        final(chars).len() == old(chars).len(),
        final(chars).deep_view() == old(chars).deep_view().update(
            p as int,
            old(chars).deep_view()[p + 1],
        ).update(p + 1, old(chars).deep_view()[p as int]),
{
    let ghost before = chars.deep_view();
    let a = chars.remove(p);
    chars.insert(p + 1, a);
    proof {
        assert(chars.deep_view() =~~= before.update(p as int, before[p + 1]).update(
            p + 1,
            before[p as int],
        ));
    }
}


/// The document tree of one resource entry.
pub open spec fn resource_json(r: MetaResourcesV) -> JsonV {
    JsonV::Obj(
        seq![
            ("MetaRow"@, JsonV::Str(esc(r.meta_row))),
            ("Count"@, JsonV::Num(int_rep(r.count as int))),
        ],
    )
}

/// The document tree of one talent entry.
pub open spec fn talent_json(t: TalentV) -> JsonV {
    JsonV::Obj(
        seq![
            ("RowName"@, JsonV::Str(esc(t.row_name))),
            ("Rank"@, JsonV::Num(int_rep(t.rank as int))),
        ],
    )
}

/// The document tree of a flag set.
pub open spec fn flags_json(f: Seq<i64>) -> JsonV {
    JsonV::Arr(f.map_values(|x: i64| JsonV::Num(int_rep(x as int))))
}

pub open spec fn resources_json(rs: Seq<MetaResourcesV>) -> JsonV {
    JsonV::Arr(rs.map_values(|r: MetaResourcesV| resource_json(r)))
}

pub open spec fn talents_json(ts: Seq<TalentV>) -> JsonV {
    JsonV::Arr(ts.map_values(|t: TalentV| talent_json(t)))
}

/// The document tree of the cosmetic block.
pub open spec fn cosmetics_json(c: Cosmetics) -> JsonV {
    JsonV::Obj(
        seq![
            ("Customization_Head"@, JsonV::Num(int_rep(c.customization_head as int))),
            ("Customization_Hair"@, JsonV::Num(int_rep(c.customization_hair as int))),
            ("Customization_HairColor"@, JsonV::Num(int_rep(c.customization_hair_color as int))),
            ("Customization_Body"@, JsonV::Num(int_rep(c.customization_body as int))),
            ("Customization_BodyColor"@, JsonV::Num(int_rep(c.customization_body_color as int))),
            ("Customization_SkinTone"@, JsonV::Num(int_rep(c.customization_skin_tone as int))),
            ("Customization_HeadTattoo"@, JsonV::Num(int_rep(c.customization_head_tattoo as int))),
            ("Customization_HeadScar"@, JsonV::Num(int_rep(c.customization_head_scar as int))),
            (
                "Customization_HeadFacialHair"@,
                JsonV::Num(int_rep(c.customization_head_facial_hair as int)),
            ),
            ("Customization_CapLogo"@, JsonV::Num(int_rep(c.customization_cap_logo as int))),
            ("IsMale"@, JsonV::Bool(c.is_male)),
            ("Customization_Voice"@, JsonV::Num(int_rep(c.customization_voice as int))),
            ("Customization_EyeColor"@, JsonV::Num(int_rep(c.customization_eye_color as int))),
        ],
    )
}

/// The document tree of the whole Profile document.
pub open spec fn profile_json(p: ProfileV) -> JsonV {
    JsonV::Obj(
        seq![
            ("UserID"@, JsonV::Str(esc(p.user_id))),
            ("MetaResources"@, resources_json(p.meta_resources)),
            ("UnlockedFlags"@, flags_json(p.unlocked_flags)),
            ("Talents"@, talents_json(p.talents)),
        ],
    )
}

/// The document tree of one Character document. The derived file names
/// are not part of it.
pub open spec fn character_json(c: CharacterV) -> JsonV {
    JsonV::Obj(
        seq![
            ("CharacterName"@, JsonV::Str(esc(c.character_name))),
            ("ChrSlot"@, JsonV::Num(int_rep(c.character_slot as int))),
            ("XP"@, JsonV::Num(int_rep(c.xp as int))),
            ("XP_Debt"@, JsonV::Num(int_rep(c.xp_debt as int))),
            ("IsDead"@, JsonV::Bool(c.is_dead)),
            ("IsAbandoned"@, JsonV::Bool(c.is_abandoned)),
            ("LastProspectId"@, JsonV::Str(esc(c.last_prospect_id))),
            ("Location"@, JsonV::Str(esc(c.location))),
            ("UnlockedFlags"@, flags_json(c.unlocked_flags)),
            ("MetaResources"@, resources_json(c.meta_resources)),
            ("Cosmetic"@, cosmetics_json(c.cosmetics)),
            ("Talents"@, talents_json(c.talents)),
        ],
    )
}

/// The envelope around the re-encoded character texts.
pub open spec fn envelope_json(texts: Seq<Seq<char>>) -> JsonV {
    JsonV::Obj(seq![("Characters.json"@, JsonV::Arr(texts.map_values(|t: Seq<char>| JsonV::Str(esc(t)))))])
}

fn num_node(n: i64) -> (r: Json)
    ensures
        r.deep_view() == JsonV::Num(int_rep(n as int)),
{
    Json::Num(int_to_string(n))
}

fn str_node(s: &str) -> (r: Json)
    ensures
        r.deep_view() == JsonV::Str(esc(s@)),
{
    Json::Str(escape_str(s))
}

#[verifier::loop_isolation(false)]
fn flags_to_json(f: &Vec<i64>) -> (r: Json)
    ensures
        r.deep_view() == flags_json(f@),
{
    let mut out: Vec<Json> = Vec::new();
    let mut i: usize = 0;
    while i < f.len()
        invariant
            0 <= i <= f.len(),
            out.deep_view() =~~= f@.take(i as int).map_values(
                |x: i64| JsonV::Num(int_rep(x as int)),
            ),
        decreases f.len() - i,
    {
        let ghost before = out.deep_view();
        out.push(num_node(f[i]));
        proof {
            assert(out.deep_view() =~~= before.push(JsonV::Num(int_rep(f@[i as int] as int))));
        }
        i += 1;
    }
    assert(f@.take(f@.len() as int) =~= f@);
    let r = Json::Arr(out);
    assert(r.deep_view()->Arr_0 =~~= out.deep_view());
    assert(out.deep_view() =~~= flags_json(f@)->Arr_0);
    assert(r.deep_view() == flags_json(f@));
    r
}

#[verifier::loop_isolation(false)]
fn resources_to_json(rs: &Vec<MetaResources>) -> (r: Json)
    ensures
        r.deep_view() == resources_json(rs.deep_view()),
{
    let mut out: Vec<Json> = Vec::new();
    let mut i: usize = 0;
    while i < rs.len()
        invariant
            0 <= i <= rs.len(),
            out.deep_view() =~~= rs.deep_view().take(i as int).map_values(
                |r: MetaResourcesV| resource_json(r),
            ),
        decreases rs.len() - i,
    {
        let ghost before = out.deep_view();
        assert(rs.deep_view()[i as int] == rs[i as int].deep_view());
        let mut entries: Vec<(String, Json)> = Vec::new();
        let key0 = String::from_str("MetaRow");
        let val0 = str_node(rs[i].meta_row.as_str());
        entries.push((key0, val0));
        let key1 = String::from_str("Count");
        let val1 = num_node(rs[i].count);
        entries.push((key1, val1));
        let node = Json::Obj(entries);
        assert(node.deep_view()->Obj_0 =~~= entries.deep_view());
        assert(entries.deep_view().len() == 2);
        assert(entries.deep_view()[0].0 =~= "MetaRow"@);
        assert(entries.deep_view()[0].1 =~~= JsonV::Str(esc(rs.deep_view()[i as int].meta_row)));
        assert(entries.deep_view()[1].0 =~= "Count"@);
        assert(entries.deep_view()[1].1 =~~= JsonV::Num(int_rep(rs.deep_view()[i as int].count as int)));
        assert(entries.deep_view() =~~= resource_json(rs.deep_view()[i as int])->Obj_0);
        assert(node.deep_view() == resource_json(rs.deep_view()[i as int]));
        out.push(node);
        proof {
            assert(out.deep_view() =~~= before.push(resource_json(rs.deep_view()[i as int])));
        }
        i += 1;
    }
    assert(rs.deep_view().take(rs@.len() as int) =~= rs.deep_view());
    let r = Json::Arr(out);
    assert(r.deep_view()->Arr_0 =~~= out.deep_view());
    assert(out.deep_view() =~~= resources_json(rs.deep_view())->Arr_0);
    assert(r.deep_view() == resources_json(rs.deep_view()));
    r
}

#[verifier::loop_isolation(false)]
fn talents_to_json(ts: &Vec<Talent>) -> (r: Json)
    ensures
        r.deep_view() == talents_json(ts.deep_view()),
{
    let mut out: Vec<Json> = Vec::new();
    let mut i: usize = 0;
    while i < ts.len()
        invariant
            0 <= i <= ts.len(),
            out.deep_view() =~~= ts.deep_view().take(i as int).map_values(
                |t: TalentV| talent_json(t),
            ),
        decreases ts.len() - i,
    {
        let ghost before = out.deep_view();
        let mut entries: Vec<(String, Json)> = Vec::new();
        entries.push((String::from_str("RowName"), str_node(ts[i].row_name.as_str())));
        entries.push((String::from_str("Rank"), num_node(ts[i].rank)));
        let node = Json::Obj(entries);
        assert(node.deep_view()->Obj_0 =~~= entries.deep_view());
        assert(ts.deep_view()[i as int] == ts[i as int].deep_view());
        assert(entries.deep_view() =~~= talent_json(ts.deep_view()[i as int])->Obj_0);
        assert(node.deep_view() == talent_json(ts.deep_view()[i as int]));
        out.push(node);
        proof {
            assert(out.deep_view() =~~= before.push(talent_json(ts.deep_view()[i as int])));
        }
        i += 1;
    }
    assert(ts.deep_view().take(ts@.len() as int) =~= ts.deep_view());
    let r = Json::Arr(out);
    assert(r.deep_view()->Arr_0 =~~= out.deep_view());
    assert(out.deep_view() =~~= talents_json(ts.deep_view())->Arr_0);
    assert(r.deep_view() == talents_json(ts.deep_view()));
    r
}

fn cosmetics_to_json(c: &Cosmetics) -> (r: Json)
    ensures
        r.deep_view() == cosmetics_json(*c),
{
    let mut entries: Vec<(String, Json)> = Vec::new();
    entries.push((String::from_str("Customization_Head"), num_node(c.customization_head)));
    entries.push((String::from_str("Customization_Hair"), num_node(c.customization_hair)));
    entries.push(
        (String::from_str("Customization_HairColor"), num_node(c.customization_hair_color)),
    );
    entries.push((String::from_str("Customization_Body"), num_node(c.customization_body)));
    entries.push(
        (String::from_str("Customization_BodyColor"), num_node(c.customization_body_color)),
    );
    entries.push((String::from_str("Customization_SkinTone"), num_node(c.customization_skin_tone)));
    entries.push(
        (String::from_str("Customization_HeadTattoo"), num_node(c.customization_head_tattoo)),
    );
    entries.push((String::from_str("Customization_HeadScar"), num_node(c.customization_head_scar)));
    entries.push(
        (
            String::from_str("Customization_HeadFacialHair"),
            num_node(c.customization_head_facial_hair),
        ),
    );
    entries.push((String::from_str("Customization_CapLogo"), num_node(c.customization_cap_logo)));
    entries.push((String::from_str("IsMale"), Json::Bool(c.is_male)));
    entries.push((String::from_str("Customization_Voice"), num_node(c.customization_voice)));
    entries.push((String::from_str("Customization_EyeColor"), num_node(c.customization_eye_color)));
    let r = Json::Obj(entries);
    assert(r.deep_view()->Obj_0 =~~= entries.deep_view());
    assert(entries.deep_view() =~~= cosmetics_json(*c)->Obj_0);
    assert(r.deep_view() == cosmetics_json(*c));
    r
}

/// The Profile document as a tree.
pub fn profile_to_json(p: &Profile) -> (r: Json)
    ensures
        r.deep_view() == profile_json(p.deep_view()),
{
    let mut entries: Vec<(String, Json)> = Vec::new();
    let v0 = str_node(p.user_id.as_str());
    let v1 = resources_to_json(&p.meta_resources);
    let v2 = flags_to_json(&p.unlocked_flags);
    let v3 = talents_to_json(&p.talents);
    entries.push((String::from_str("UserID"), v0));
    entries.push((String::from_str("MetaResources"), v1));
    entries.push((String::from_str("UnlockedFlags"), v2));
    entries.push((String::from_str("Talents"), v3));
    assert(entries.deep_view().len() == 4);
    assert(entries.deep_view()[0].0 =~= "UserID"@);
    assert(entries.deep_view()[1].0 =~= "MetaResources"@);
    assert(entries.deep_view()[2].0 =~= "UnlockedFlags"@);
    assert(entries.deep_view()[3].0 =~= "Talents"@);
    assert(entries.deep_view()[0].1 == JsonV::Str(esc(p.deep_view().user_id)));
    assert(entries.deep_view()[1].1 == resources_json(p.deep_view().meta_resources));
    assert(p.unlocked_flags@ =~= p.unlocked_flags.deep_view());
    assert(entries.deep_view()[2].1 == flags_json(p.deep_view().unlocked_flags));
    assert(entries.deep_view()[3].1 == talents_json(p.deep_view().talents));
    let r = Json::Obj(entries);
    assert(r.deep_view()->Obj_0 =~~= entries.deep_view());
    assert(entries.deep_view() =~~= profile_json(p.deep_view())->Obj_0);
    assert(r.deep_view() == profile_json(p.deep_view()));
    r
}

/// One Character document as a tree.
pub fn character_to_json(c: &Character) -> (r: Json)
    ensures
        r.deep_view() == character_json(c.deep_view()),
{
    let mut entries: Vec<(String, Json)> = Vec::new();
    let v0 = str_node(c.character_name.as_str());
    let v1 = num_node(c.character_slot);
    let v2 = num_node(c.xp);
    let v3 = num_node(c.xp_debt);
    let v6 = str_node(c.last_prospect_id.as_str());
    let v7 = str_node(c.location.as_str());
    let v8 = flags_to_json(&c.unlocked_flags);
    let v9 = resources_to_json(&c.meta_resources);
    let v10 = cosmetics_to_json(&c.cosmetics);
    let v11 = talents_to_json(&c.talents);
    entries.push((String::from_str("CharacterName"), v0));
    entries.push((String::from_str("ChrSlot"), v1));
    entries.push((String::from_str("XP"), v2));
    entries.push((String::from_str("XP_Debt"), v3));
    entries.push((String::from_str("IsDead"), Json::Bool(c.is_dead)));
    entries.push((String::from_str("IsAbandoned"), Json::Bool(c.is_abandoned)));
    entries.push((String::from_str("LastProspectId"), v6));
    entries.push((String::from_str("Location"), v7));
    entries.push((String::from_str("UnlockedFlags"), v8));
    entries.push((String::from_str("MetaResources"), v9));
    entries.push((String::from_str("Cosmetic"), v10));
    entries.push((String::from_str("Talents"), v11));
    assert(entries.deep_view().len() == 12);
    assert(entries.deep_view()[0].1 == JsonV::Str(esc(c.deep_view().character_name)));
    assert(entries.deep_view()[1].1 == JsonV::Num(int_rep(c.deep_view().character_slot as int)));
    assert(entries.deep_view()[2].1 == JsonV::Num(int_rep(c.deep_view().xp as int)));
    assert(entries.deep_view()[3].1 == JsonV::Num(int_rep(c.deep_view().xp_debt as int)));
    assert(entries.deep_view()[4].1 == JsonV::Bool(c.deep_view().is_dead));
    assert(entries.deep_view()[5].1 == JsonV::Bool(c.deep_view().is_abandoned));
    assert(entries.deep_view()[6].1 == JsonV::Str(esc(c.deep_view().last_prospect_id)));
    assert(entries.deep_view()[7].1 == JsonV::Str(esc(c.deep_view().location)));
    assert(c.unlocked_flags@ =~= c.unlocked_flags.deep_view());
    assert(entries.deep_view()[8].1 == flags_json(c.deep_view().unlocked_flags));
    assert(entries.deep_view()[9].1 == resources_json(c.deep_view().meta_resources));
    assert(entries.deep_view()[10].1 == cosmetics_json(c.deep_view().cosmetics));
    assert(entries.deep_view()[11].1 == talents_json(c.deep_view().talents));
    let r = Json::Obj(entries);
    assert(r.deep_view()->Obj_0 =~~= entries.deep_view());
    assert(entries.deep_view() =~~= character_json(c.deep_view())->Obj_0);
    assert(r.deep_view() == character_json(c.deep_view()));
    r
}

/// The canonical text of the Profile document.
pub fn encode_profile(p: &Profile) -> (r: String)
    ensures
        r@ == emit(profile_json(p.deep_view())),
{
    let node = profile_to_json(p);
    to_text(&node)
}

/// The canonical text of one Character document.
pub fn encode_character(c: &Character) -> (r: String)
    ensures
        r@ == emit(character_json(c.deep_view())),
{
    let node = character_to_json(c);
    to_text(&node)
}

/// The canonical text of the Characters envelope: each character document
/// re-encoded to its own text and carried as a string element, in the
/// collection's order.
#[verifier::loop_isolation(false)]
pub fn encode_characters(chars: &Vec<Character>) -> (r: String)
    ensures
        r@ == emit(
            envelope_json(
                chars.deep_view().map_values(|c: CharacterV| emit(character_json(c))),
            ),
        ),
{
    let ghost texts = chars.deep_view().map_values(|c: CharacterV| emit(character_json(c)));
    let mut elems: Vec<Json> = Vec::new();
    let mut i: usize = 0;
    while i < chars.len()
        invariant
            0 <= i <= chars.len(),
            elems.deep_view() =~~= texts.take(i as int).map_values(
                |t: Seq<char>| JsonV::Str(esc(t)),
            ),
        decreases chars.len() - i,
    {
        let ghost before = elems.deep_view();
        let text = encode_character(&chars[i]);
        elems.push(str_node(text.as_str()));
        proof {
            assert(texts[i as int] == emit(character_json(chars.deep_view()[i as int])));
            assert(elems.deep_view() =~~= before.push(JsonV::Str(esc(texts[i as int]))));
        }
        i += 1;
    }
    assert(texts.take(texts.len() as int) =~= texts);
    let arr = Json::Arr(elems);
    assert(arr.deep_view()->Arr_0 =~~= elems.deep_view());
    let mut entries: Vec<(String, Json)> = Vec::new();
    entries.push((String::from_str("Characters.json"), arr));
    let node = Json::Obj(entries);
    assert(node.deep_view()->Obj_0 =~~= entries.deep_view());
    assert(elems.deep_view() =~~= envelope_json(texts)->Obj_0[0].1->Arr_0);
    assert(arr.deep_view() == envelope_json(texts)->Obj_0[0].1);
    assert(entries.deep_view() =~~= envelope_json(texts)->Obj_0);
    assert(node.deep_view() == envelope_json(texts));
    to_text(&node)
}


/// First value recorded under `key`, or nothing.
pub open spec fn obj_lookup(entries: Seq<(Seq<char>, JsonV)>, key: Seq<char>) -> Option<JsonV>
    decreases entries.len(),
{
    if entries.len() == 0 {
        None
    } else if entries[0].0 == key {
        Some(entries[0].1)
    } else {
        obj_lookup(entries.drop_first(), key)
    }
}

/// The integer a number node denotes, when it fits the field.
pub open spec fn jint_of(v: JsonV) -> Option<i64> {
    match v {
        JsonV::Num(lit) => match spec_parse_int(lit) {
            Some(n) => if i64::MIN <= n <= i64::MAX {
                Some(n as i64)
            } else {
                None
            },
            None => None,
        },
        _ => None,
    }
}

pub open spec fn jstr_of(v: JsonV) -> Option<Seq<char>> {
    match v {
        JsonV::Str(s) => Some(unesc(s)),
        _ => None,
    }
}

pub open spec fn jbool_of(v: JsonV) -> Option<bool> {
    match v {
        JsonV::Bool(b) => Some(b),
        _ => None,
    }
}

pub open spec fn flags_list(elems: Seq<JsonV>) -> Option<Seq<i64>>
    decreases elems.len(),
{
    if elems.len() == 0 {
        Some(Seq::empty())
    } else {
        match (flags_list(elems.drop_last()), jint_of(elems.last())) {
            (Some(rest), Some(n)) => Some(rest.push(n)),
            _ => None,
        }
    }
}

pub open spec fn flags_of(v: JsonV) -> Option<Seq<i64>> {
    match v {
        JsonV::Arr(elems) => flags_list(elems),
        _ => None,
    }
}

/// One resource entry read back from its node.
pub open spec fn resource_of(v: JsonV) -> Option<MetaResourcesV> {
    if v is Obj {
        match (obj_lookup(v->Obj_0, "MetaRow"@), obj_lookup(v->Obj_0, "Count"@)) {
            (Some(m), Some(c)) => match (jstr_of(m), jint_of(c)) {
                (Some(name), Some(count)) => Some(MetaResourcesV { meta_row: name, count }),
                _ => None,
            },
            _ => None,
        }
    } else {
        None
    }
}

pub open spec fn resources_list(elems: Seq<JsonV>) -> Option<Seq<MetaResourcesV>>
    decreases elems.len(),
{
    if elems.len() == 0 {
        Some(Seq::empty())
    } else {
        match (resources_list(elems.drop_last()), resource_of(elems.last())) {
            (Some(rest), Some(r)) => Some(rest.push(r)),
            _ => None,
        }
    }
}

pub open spec fn resources_of(v: JsonV) -> Option<Seq<MetaResourcesV>> {
    match v {
        JsonV::Arr(elems) => resources_list(elems),
        _ => None,
    }
}

/// One talent entry read back from its node.
pub open spec fn talent_of(v: JsonV) -> Option<TalentV> {
    if v is Obj {
        match (obj_lookup(v->Obj_0, "RowName"@), obj_lookup(v->Obj_0, "Rank"@)) {
            (Some(m), Some(c)) => match (jstr_of(m), jint_of(c)) {
                (Some(name), Some(rank)) => Some(TalentV { row_name: name, rank }),
                _ => None,
            },
            _ => None,
        }
    } else {
        None
    }
}

pub open spec fn talents_list(elems: Seq<JsonV>) -> Option<Seq<TalentV>>
    decreases elems.len(),
{
    if elems.len() == 0 {
        Some(Seq::empty())
    } else {
        match (talents_list(elems.drop_last()), talent_of(elems.last())) {
            (Some(rest), Some(t)) => Some(rest.push(t)),
            _ => None,
        }
    }
}

pub open spec fn talents_of(v: JsonV) -> Option<Seq<TalentV>> {
    match v {
        JsonV::Arr(elems) => talents_list(elems),
        _ => None,
    }
}

/// The string a `key` field holds, unescaped.
pub open spec fn lookup_str(e: Seq<(Seq<char>, JsonV)>, key: Seq<char>) -> Option<Seq<char>> {
    match obj_lookup(e, key) {
        Some(x) => jstr_of(x),
        None => None,
    }
}

/// The integer a `key` field holds.
pub open spec fn lookup_int(e: Seq<(Seq<char>, JsonV)>, key: Seq<char>) -> Option<i64> {
    match obj_lookup(e, key) {
        Some(x) => jint_of(x),
        None => None,
    }
}

pub open spec fn lookup_bool(e: Seq<(Seq<char>, JsonV)>, key: Seq<char>) -> Option<bool> {
    match obj_lookup(e, key) {
        Some(x) => jbool_of(x),
        None => None,
    }
}

pub open spec fn lookup_flags(e: Seq<(Seq<char>, JsonV)>, key: Seq<char>) -> Option<Seq<i64>> {
    match obj_lookup(e, key) {
        Some(x) => flags_of(x),
        None => None,
    }
}

pub open spec fn lookup_resources(e: Seq<(Seq<char>, JsonV)>, key: Seq<char>) -> Option<
    Seq<MetaResourcesV>,
> {
    match obj_lookup(e, key) {
        Some(x) => resources_of(x),
        None => None,
    }
}

pub open spec fn lookup_talents(e: Seq<(Seq<char>, JsonV)>, key: Seq<char>) -> Option<
    Seq<TalentV>,
> {
    match obj_lookup(e, key) {
        Some(x) => talents_of(x),
        None => None,
    }
}

pub open spec fn lookup_cosmetics(e: Seq<(Seq<char>, JsonV)>, key: Seq<char>) -> Option<
    Cosmetics,
> {
    match obj_lookup(e, key) {
        Some(x) => cosmetics_of(x),
        None => None,
    }
}

/// The cosmetic block a tree carries, or nothing when any of its thirteen
/// fields is absent or ill-typed.
pub open spec fn cosmetics_of(v: JsonV) -> Option<Cosmetics> {
    if v is Obj && lookup_int(v->Obj_0, "Customization_Head"@) is Some && lookup_int(
        v->Obj_0,
        "Customization_Hair"@,
    ) is Some && lookup_int(v->Obj_0, "Customization_HairColor"@) is Some && lookup_int(
        v->Obj_0,
        "Customization_Body"@,
    ) is Some && lookup_int(v->Obj_0, "Customization_BodyColor"@) is Some && lookup_int(
        v->Obj_0,
        "Customization_SkinTone"@,
    ) is Some && lookup_int(v->Obj_0, "Customization_HeadTattoo"@) is Some && lookup_int(
        v->Obj_0,
        "Customization_HeadScar"@,
    ) is Some && lookup_int(v->Obj_0, "Customization_HeadFacialHair"@) is Some && lookup_int(
        v->Obj_0,
        "Customization_CapLogo"@,
    ) is Some && lookup_bool(v->Obj_0, "IsMale"@) is Some && lookup_int(
        v->Obj_0,
        "Customization_Voice"@,
    ) is Some && lookup_int(v->Obj_0, "Customization_EyeColor"@) is Some {
        Some(
            Cosmetics {
                customization_head: lookup_int(v->Obj_0, "Customization_Head"@)->Some_0,
                customization_hair: lookup_int(v->Obj_0, "Customization_Hair"@)->Some_0,
                customization_hair_color: lookup_int(v->Obj_0, "Customization_HairColor"@)->Some_0,
                customization_body: lookup_int(v->Obj_0, "Customization_Body"@)->Some_0,
                customization_body_color: lookup_int(v->Obj_0, "Customization_BodyColor"@)->Some_0,
                customization_skin_tone: lookup_int(v->Obj_0, "Customization_SkinTone"@)->Some_0,
                customization_head_tattoo: lookup_int(
                    v->Obj_0,
                    "Customization_HeadTattoo"@,
                )->Some_0,
                customization_head_scar: lookup_int(v->Obj_0, "Customization_HeadScar"@)->Some_0,
                customization_head_facial_hair: lookup_int(
                    v->Obj_0,
                    "Customization_HeadFacialHair"@,
                )->Some_0,
                customization_cap_logo: lookup_int(v->Obj_0, "Customization_CapLogo"@)->Some_0,
                is_male: lookup_bool(v->Obj_0, "IsMale"@)->Some_0,
                customization_voice: lookup_int(v->Obj_0, "Customization_Voice"@)->Some_0,
                customization_eye_color: lookup_int(v->Obj_0, "Customization_EyeColor"@)->Some_0,
            },
        )
    } else {
        None
    }
}

/// The Profile document a tree carries, or nothing when any field is
/// absent or ill-typed.
pub open spec fn profile_of(v: JsonV) -> Option<ProfileV> {
    if v is Obj && lookup_str(v->Obj_0, "UserID"@) is Some && lookup_resources(
        v->Obj_0,
        "MetaResources"@,
    ) is Some && lookup_flags(v->Obj_0, "UnlockedFlags"@) is Some && lookup_talents(
        v->Obj_0,
        "Talents"@,
    ) is Some {
        Some(
            ProfileV {
                user_id: lookup_str(v->Obj_0, "UserID"@)->Some_0,
                meta_resources: lookup_resources(v->Obj_0, "MetaResources"@)->Some_0,
                unlocked_flags: lookup_flags(v->Obj_0, "UnlockedFlags"@)->Some_0,
                talents: lookup_talents(v->Obj_0, "Talents"@)->Some_0,
            },
        )
    } else {
        None
    }
}

/// The Character document a tree carries, its two file names derived from
/// the stored slot, or nothing when any field is absent or ill-typed.
pub open spec fn character_of(v: JsonV) -> Option<CharacterV> {
    if v is Obj && lookup_str(v->Obj_0, "CharacterName"@) is Some && lookup_int(
        v->Obj_0,
        "ChrSlot"@,
    ) is Some && lookup_int(v->Obj_0, "XP"@) is Some && lookup_int(v->Obj_0, "XP_Debt"@) is Some
        && lookup_bool(v->Obj_0, "IsDead"@) is Some && lookup_bool(v->Obj_0, "IsAbandoned"@)
        is Some && lookup_str(v->Obj_0, "LastProspectId"@) is Some && lookup_str(
        v->Obj_0,
        "Location"@,
    ) is Some && lookup_flags(v->Obj_0, "UnlockedFlags"@) is Some && lookup_resources(
        v->Obj_0,
        "MetaResources"@,
    ) is Some && lookup_cosmetics(v->Obj_0, "Cosmetic"@) is Some && lookup_talents(
        v->Obj_0,
        "Talents"@,
    ) is Some {
        Some(
            CharacterV {
                character_name: lookup_str(v->Obj_0, "CharacterName"@)->Some_0,
                character_slot: lookup_int(v->Obj_0, "ChrSlot"@)->Some_0,
                xp: lookup_int(v->Obj_0, "XP"@)->Some_0,
                xp_debt: lookup_int(v->Obj_0, "XP_Debt"@)->Some_0,
                is_dead: lookup_bool(v->Obj_0, "IsDead"@)->Some_0,
                is_abandoned: lookup_bool(v->Obj_0, "IsAbandoned"@)->Some_0,
                last_prospect_id: lookup_str(v->Obj_0, "LastProspectId"@)->Some_0,
                location: lookup_str(v->Obj_0, "Location"@)->Some_0,
                unlocked_flags: lookup_flags(v->Obj_0, "UnlockedFlags"@)->Some_0,
                meta_resources: lookup_resources(v->Obj_0, "MetaResources"@)->Some_0,
                cosmetics: lookup_cosmetics(v->Obj_0, "Cosmetic"@)->Some_0,
                talents: lookup_talents(v->Obj_0, "Talents"@)->Some_0,
                inventory_file: "InventoryID_"@ + int_rep(
                    slot_byte(lookup_int(v->Obj_0, "ChrSlot"@)->Some_0),
                ) + ".json"@,
                loadout_file: "Slot_"@ + int_rep(
                    slot_byte(lookup_int(v->Obj_0, "ChrSlot"@)->Some_0),
                ) + ".json"@,
            },
        )
    } else {
        None
    }
}

/// A failed element fails the whole flag list.
proof fn lemma_flags_list_none(elems: Seq<JsonV>, k: int)
    requires
        0 <= k < elems.len(),
        jint_of(elems[k]) is None,
    ensures
        flags_list(elems) is None,
    decreases elems.len(),
{
    if k < elems.len() - 1 {
        assert(elems.drop_last()[k] == elems[k]);
        lemma_flags_list_none(elems.drop_last(), k);
    }
}

/// A failed element fails the whole resource list.
proof fn lemma_resources_list_none(elems: Seq<JsonV>, k: int)
    requires
        0 <= k < elems.len(),
        resource_of(elems[k]) is None,
    ensures
        resources_list(elems) is None,
    decreases elems.len(),
{
    if k < elems.len() - 1 {
        assert(elems.drop_last()[k] == elems[k]);
        lemma_resources_list_none(elems.drop_last(), k);
    }
}

/// A failed element fails the whole talent list.
proof fn lemma_talents_list_none(elems: Seq<JsonV>, k: int)
    requires
        0 <= k < elems.len(),
        talent_of(elems[k]) is None,
    ensures
        talents_list(elems) is None,
    decreases elems.len(),
{
    if k < elems.len() - 1 {
        assert(elems.drop_last()[k] == elems[k]);
        lemma_talents_list_none(elems.drop_last(), k);
    }
}

/// First entry recorded under `key`.
#[verifier::loop_isolation(false)]
fn obj_get<'a>(entries: &'a Vec<(String, Json)>, key: &String) -> (r: Option<&'a Json>)
    ensures
        match r {
            Some(v) => obj_lookup(entries.deep_view(), key@) == Some(v.deep_view()),
            None => obj_lookup(entries.deep_view(), key@) is None,
        },
{
    let ghost es = entries.deep_view();
    proof {
        assert(es.skip(0) =~= es);
    }
    let mut i: usize = 0;
    while i < entries.len()
        invariant
            0 <= i <= entries.len(),
            obj_lookup(es, key@) == obj_lookup(es.skip(i as int), key@),
        decreases entries.len() - i,
    {
        proof {
            assert(es.skip(i as int)[0] == es[i as int]);
            assert(es[i as int] == (entries@[i as int].0@, entries@[i as int].1.deep_view()));
            assert(es.skip(i as int).drop_first() =~= es.skip(i + 1));
        }
        if entries[i].0 == *key {
            return Some(&entries[i].1);
        }
        i += 1;
    }
    assert(es.skip(es.len() as int) =~= Seq::<(Seq<char>, JsonV)>::empty());
    None
}

fn json_to_i64(v: &Json) -> (r: Option<i64>)
    ensures
        r == jint_of(v.deep_view()),
{
    match v {
        Json::Num(lit) => parse_int(lit.as_str()),
        _ => None,
    }
}

fn json_to_bool(v: &Json) -> (r: Option<bool>)
    ensures
        r == jbool_of(v.deep_view()),
{
    match v {
        Json::Bool(b) => Some(*b),
        _ => None,
    }
}

fn json_to_string(v: &Json) -> (r: Option<String>)
    ensures
        match r {
            Some(s) => jstr_of(v.deep_view()) == Some(s@),
            None => jstr_of(v.deep_view()) is None,
        },
{
    match v {
        Json::Str(s) => Some(unescape_str(s.as_str())),
        _ => None,
    }
}

#[verifier::loop_isolation(false)]
fn json_to_flags(v: &Json) -> (r: Option<Vec<i64>>)
    ensures
        match r {
            Some(f) => flags_of(v.deep_view()) == Some(f@),
            None => flags_of(v.deep_view()) is None,
        },
{
    let elems = match v {
        Json::Arr(elems) => elems,
        _ => {
            return None;
        },
    };
    let ghost es = v.deep_view()->Arr_0;
    let mut out: Vec<i64> = Vec::new();
    let mut i: usize = 0;
    while i < elems.len()
        invariant
            0 <= i <= elems.len(),
            es.len() == elems.len(),
            forall|k: int| 0 <= k < elems.len() ==> #[trigger] es[k] == elems[k].deep_view(),
            flags_list(es.take(i as int)) == Some(out@),
        decreases elems.len() - i,
    {
        proof {
            assert(es.take(i + 1).drop_last() =~= es.take(i as int));
            assert(es.take(i + 1).last() == es[i as int]);
        }
        match json_to_i64(&elems[i]) {
            Some(n) => {
                out.push(n);
            },
            None => {
                proof {
                    lemma_flags_list_none(es, i as int);
                }
                return None;
            },
        }
        i += 1;
    }
    assert(es.take(es.len() as int) =~= es);
    Some(out)
}

#[verifier::loop_isolation(false)]
fn json_to_resources(v: &Json) -> (r: Option<Vec<MetaResources>>)
    ensures
        match r {
            Some(rs) => resources_of(v.deep_view()) == Some(rs.deep_view()),
            None => resources_of(v.deep_view()) is None,
        },
{
    let elems = match v {
        Json::Arr(elems) => elems,
        _ => {
            return None;
        },
    };
    let ghost es = v.deep_view()->Arr_0;
    let mut out: Vec<MetaResources> = Vec::new();
    let mut i: usize = 0;
    while i < elems.len()
        invariant
            0 <= i <= elems.len(),
            es.len() == elems.len(),
            forall|k: int| 0 <= k < elems.len() ==> #[trigger] es[k] == elems[k].deep_view(),
            resources_list(es.take(i as int)) == Some(out.deep_view()),
        decreases elems.len() - i,
    {
        proof {
            assert(es.take(i + 1).drop_last() =~= es.take(i as int));
            assert(es.take(i + 1).last() == es[i as int]);
        }
        let node = &elems[i];
        let entries = match node {
            Json::Obj(entries) => entries,
            _ => {
                proof {
                    lemma_resources_list_none(es, i as int);
                }
                return None;
            },
        };
        proof {
            assert(node.deep_view()->Obj_0 =~~= entries.deep_view());
        }
        let name = match obj_get(entries, &String::from_str("MetaRow")) {
            Some(m) => match json_to_string(m) {
                Some(name) => name,
                None => {
                    proof {
                        lemma_resources_list_none(es, i as int);
                    }
                    return None;
                },
            },
            None => {
                proof {
                    lemma_resources_list_none(es, i as int);
                }
                return None;
            },
        };
        let count = match obj_get(entries, &String::from_str("Count")) {
            Some(c) => match json_to_i64(c) {
                Some(count) => count,
                None => {
                    proof {
                        lemma_resources_list_none(es, i as int);
                    }
                    return None;
                },
            },
            None => {
                proof {
                    lemma_resources_list_none(es, i as int);
                }
                return None;
            },
        };
        let ghost before = out.deep_view();
        let entry = MetaResources { meta_row: name, count };
        assert(resource_of(es[i as int]) == Some(entry.deep_view()));
        out.push(entry);
        proof {
            assert(out.deep_view() =~~= before.push(entry.deep_view()));
        }
        i += 1;
    }
    assert(es.take(es.len() as int) =~= es);
    Some(out)
}

#[verifier::loop_isolation(false)]
fn json_to_talents(v: &Json) -> (r: Option<Vec<Talent>>)
    ensures
        match r {
            Some(ts) => talents_of(v.deep_view()) == Some(ts.deep_view()),
            None => talents_of(v.deep_view()) is None,
        },
{
    let elems = match v {
        Json::Arr(elems) => elems,
        _ => {
            return None;
        },
    };
    let ghost es = v.deep_view()->Arr_0;
    let mut out: Vec<Talent> = Vec::new();
    let mut i: usize = 0;
    while i < elems.len()
        invariant
            0 <= i <= elems.len(),
            es.len() == elems.len(),
            forall|k: int| 0 <= k < elems.len() ==> #[trigger] es[k] == elems[k].deep_view(),
            talents_list(es.take(i as int)) == Some(out.deep_view()),
        decreases elems.len() - i,
    {
        proof {
            assert(es.take(i + 1).drop_last() =~= es.take(i as int));
            assert(es.take(i + 1).last() == es[i as int]);
        }
        let node = &elems[i];
        let entries = match node {
            Json::Obj(entries) => entries,
            _ => {
                proof {
                    lemma_talents_list_none(es, i as int);
                }
                return None;
            },
        };
        proof {
            assert(node.deep_view()->Obj_0 =~~= entries.deep_view());
        }
        let name = match obj_get(entries, &String::from_str("RowName")) {
            Some(m) => match json_to_string(m) {
                Some(name) => name,
                None => {
                    proof {
                        lemma_talents_list_none(es, i as int);
                    }
                    return None;
                },
            },
            None => {
                proof {
                    lemma_talents_list_none(es, i as int);
                }
                return None;
            },
        };
        let rank = match obj_get(entries, &String::from_str("Rank")) {
            Some(c) => match json_to_i64(c) {
                Some(rank) => rank,
                None => {
                    proof {
                        lemma_talents_list_none(es, i as int);
                    }
                    return None;
                },
            },
            None => {
                proof {
                    lemma_talents_list_none(es, i as int);
                }
                return None;
            },
        };
        let ghost before = out.deep_view();
        let entry = Talent { row_name: name, rank };
        assert(talent_of(es[i as int]) == Some(entry.deep_view()));
        out.push(entry);
        proof {
            assert(out.deep_view() =~~= before.push(entry.deep_view()));
        }
        i += 1;
    }
    assert(es.take(es.len() as int) =~= es);
    Some(out)
}

/// Read the Profile document out of its parsed tree.
pub fn profile_from_json(v: &Json) -> (r: Option<Profile>)
    ensures
        r matches Some(p) ==> profile_of(v.deep_view()) == Some(p.deep_view()),
        r is None ==> profile_of(v.deep_view()) is None,
{
    let entries = match v {
        Json::Obj(entries) => entries,
        _ => {
            return None;
        },
    };
    proof {
        assert(v.deep_view()->Obj_0 =~~= entries.deep_view());
    }
    let user_id = match obj_get(entries, &String::from_str("UserID")) {
        Some(u) => match json_to_string(u) {
            Some(s) => s,
            None => {
                return None;
            },
        },
        None => {
            return None;
        },
    };
    let meta_resources = match obj_get(entries, &String::from_str("MetaResources")) {
        Some(m) => match json_to_resources(m) {
            Some(rs) => rs,
            None => {
                return None;
            },
        },
        None => {
            return None;
        },
    };
    let unlocked_flags = match obj_get(entries, &String::from_str("UnlockedFlags")) {
        Some(f) => match json_to_flags(f) {
            Some(fl) => fl,
            None => {
                return None;
            },
        },
        None => {
            return None;
        },
    };
    let talents = match obj_get(entries, &String::from_str("Talents")) {
        Some(t) => match json_to_talents(t) {
            Some(ts) => ts,
            None => {
                return None;
            },
        },
        None => {
            return None;
        },
    };
    let p = Profile { user_id, meta_resources, unlocked_flags, talents };
    assert(p.unlocked_flags@ =~= p.unlocked_flags.deep_view());
    proof {
        let vv = v.deep_view();
        assert(profile_of(vv) is Some);
        assert(profile_of(vv)->Some_0 =~~= p.deep_view());
        assert(profile_of(vv) == Some(p.deep_view()));
    }
    Some(p)
}


fn cosmetics_from_json(v: &Json) -> (r: Option<Cosmetics>)
    ensures
        match r {
            Some(c) => cosmetics_of(v.deep_view()) == Some(c),
            None => cosmetics_of(v.deep_view()) is None,
        },
{
    let entries = match v {
        Json::Obj(entries) => entries,
        _ => {
            return None;
        },
    };
    proof {
        assert(v.deep_view()->Obj_0 =~~= entries.deep_view());
    }
    let customization_head = match obj_get(entries, &String::from_str("Customization_Head")) {
        Some(x) => match json_to_i64(x) {
            Some(n) => n,
            None => { return None; },
        },
        None => { return None; },
    };
    let customization_hair = match obj_get(entries, &String::from_str("Customization_Hair")) {
        Some(x) => match json_to_i64(x) {
            Some(n) => n,
            None => { return None; },
        },
        None => { return None; },
    };
    let customization_hair_color = match obj_get(
        entries,
        &String::from_str("Customization_HairColor"),
    ) {
        Some(x) => match json_to_i64(x) {
            Some(n) => n,
            None => { return None; },
        },
        None => { return None; },
    };
    let customization_body = match obj_get(entries, &String::from_str("Customization_Body")) {
        Some(x) => match json_to_i64(x) {
            Some(n) => n,
            None => { return None; },
        },
        None => { return None; },
    };
    let customization_body_color = match obj_get(
        entries,
        &String::from_str("Customization_BodyColor"),
    ) {
        Some(x) => match json_to_i64(x) {
            Some(n) => n,
            None => { return None; },
        },
        None => { return None; },
    };
    let customization_skin_tone = match obj_get(
        entries,
        &String::from_str("Customization_SkinTone"),
    ) {
        Some(x) => match json_to_i64(x) {
            Some(n) => n,
            None => { return None; },
        },
        None => { return None; },
    };
    let customization_head_tattoo = match obj_get(
        entries,
        &String::from_str("Customization_HeadTattoo"),
    ) {
        Some(x) => match json_to_i64(x) {
            Some(n) => n,
            None => { return None; },
        },
        None => { return None; },
    };
    let customization_head_scar = match obj_get(
        entries,
        &String::from_str("Customization_HeadScar"),
    ) {
        Some(x) => match json_to_i64(x) {
            Some(n) => n,
            None => { return None; },
        },
        None => { return None; },
    };
    let customization_head_facial_hair = match obj_get(
        entries,
        &String::from_str("Customization_HeadFacialHair"),
    ) {
        Some(x) => match json_to_i64(x) {
            Some(n) => n,
            None => { return None; },
        },
        None => { return None; },
    };
    let customization_cap_logo = match obj_get(
        entries,
        &String::from_str("Customization_CapLogo"),
    ) {
        Some(x) => match json_to_i64(x) {
            Some(n) => n,
            None => { return None; },
        },
        None => { return None; },
    };
    let is_male = match obj_get(entries, &String::from_str("IsMale")) {
        Some(x) => match json_to_bool(x) {
            Some(b) => b,
            None => { return None; },
        },
        None => { return None; },
    };
    let customization_voice = match obj_get(entries, &String::from_str("Customization_Voice")) {
        Some(x) => match json_to_i64(x) {
            Some(n) => n,
            None => { return None; },
        },
        None => { return None; },
    };
    let customization_eye_color = match obj_get(
        entries,
        &String::from_str("Customization_EyeColor"),
    ) {
        Some(x) => match json_to_i64(x) {
            Some(n) => n,
            None => { return None; },
        },
        None => { return None; },
    };
    let c = Cosmetics {
        customization_head,
        customization_hair,
        customization_hair_color,
        customization_body,
        customization_body_color,
        customization_skin_tone,
        customization_head_tattoo,
        customization_head_scar,
        customization_head_facial_hair,
        customization_cap_logo,
        is_male,
        customization_voice,
        customization_eye_color,
    };
    proof {
        let vv = v.deep_view();
        assert(cosmetics_of(vv) is Some);
        assert(cosmetics_of(vv) == Some(c));
    }
    Some(c)
}

/// Read one Character document out of its parsed tree, deriving the two
/// per-slot file names from the stored slot number.
pub fn character_from_json(v: &Json) -> (r: Option<Character>)
    ensures
        r matches Some(c) ==> character_of(v.deep_view()) == Some(c.deep_view()),
        r is None ==> character_of(v.deep_view()) is None,
{
    let entries = match v {
        Json::Obj(entries) => entries,
        _ => {
            return None;
        },
    };
    proof {
        assert(v.deep_view()->Obj_0 =~~= entries.deep_view());
    }
    let character_name = match obj_get(entries, &String::from_str("CharacterName")) {
        Some(x) => match json_to_string(x) {
            Some(s) => s,
            None => { return None; },
        },
        None => { return None; },
    };
    let character_slot = match obj_get(entries, &String::from_str("ChrSlot")) {
        Some(x) => match json_to_i64(x) {
            Some(n) => n,
            None => { return None; },
        },
        None => { return None; },
    };
    let xp = match obj_get(entries, &String::from_str("XP")) {
        Some(x) => match json_to_i64(x) {
            Some(n) => n,
            None => { return None; },
        },
        None => { return None; },
    };
    let xp_debt = match obj_get(entries, &String::from_str("XP_Debt")) {
        Some(x) => match json_to_i64(x) {
            Some(n) => n,
            None => { return None; },
        },
        None => { return None; },
    };
    let is_dead = match obj_get(entries, &String::from_str("IsDead")) {
        Some(x) => match json_to_bool(x) {
            Some(b) => b,
            None => { return None; },
        },
        None => { return None; },
    };
    let is_abandoned = match obj_get(entries, &String::from_str("IsAbandoned")) {
        Some(x) => match json_to_bool(x) {
            Some(b) => b,
            None => { return None; },
        },
        None => { return None; },
    };
    let last_prospect_id = match obj_get(entries, &String::from_str("LastProspectId")) {
        Some(x) => match json_to_string(x) {
            Some(s) => s,
            None => { return None; },
        },
        None => { return None; },
    };
    let location = match obj_get(entries, &String::from_str("Location")) {
        Some(x) => match json_to_string(x) {
            Some(s) => s,
            None => { return None; },
        },
        None => { return None; },
    };
    let unlocked_flags = match obj_get(entries, &String::from_str("UnlockedFlags")) {
        Some(x) => match json_to_flags(x) {
            Some(f) => f,
            None => { return None; },
        },
        None => { return None; },
    };
    let meta_resources = match obj_get(entries, &String::from_str("MetaResources")) {
        Some(x) => match json_to_resources(x) {
            Some(rs) => rs,
            None => { return None; },
        },
        None => { return None; },
    };
    let cosmetics = match obj_get(entries, &String::from_str("Cosmetic")) {
        Some(x) => match cosmetics_from_json(x) {
            Some(c) => c,
            None => { return None; },
        },
        None => { return None; },
    };
    let talents = match obj_get(entries, &String::from_str("Talents")) {
        Some(x) => match json_to_talents(x) {
            Some(ts) => ts,
            None => { return None; },
        },
        None => { return None; },
    };
    let inventory_file = inventory_file_name(character_slot);
    let loadout_file = loadout_file_name(character_slot);
    let c = Character {
        character_name,
        character_slot,
        xp,
        xp_debt,
        is_dead,
        is_abandoned,
        last_prospect_id,
        location,
        unlocked_flags,
        meta_resources,
        cosmetics,
        talents,
        inventory_file,
        loadout_file,
    };
    assert(c.unlocked_flags@ =~= c.unlocked_flags.deep_view());
    proof {
        let vv = v.deep_view();
        assert(character_of(vv) is Some);
        assert(character_of(vv)->Some_0 =~~= c.deep_view());
        assert(character_of(vv) == Some(c.deep_view()));
    }
    Some(c)
}

/// The profile a text denotes: the parsed document's profile.
pub open spec fn spec_decode_profile(s: Seq<char>) -> Option<ProfileV> {
    match spec_doc(s) {
        Some(v) => profile_of(v),
        None => None,
    }
}

/// Read the Profile document from its file text: exactly the profile the
/// text denotes, or nothing when the text denotes none.
pub fn decode_profile(s: &str) -> (r: Option<Profile>)
    ensures
        r matches Some(p) ==> spec_decode_profile(s@) == Some(p.deep_view()),
        r is None ==> spec_decode_profile(s@) is None,
{
    let parsed = match parse_text(s) {
        Some(v) => v,
        None => {
            return None;
        },
    };
    profile_from_json(&parsed)
}

/// One envelope element: the text of a Character document carried as a
/// string.
pub open spec fn char_elem_of(v: JsonV) -> Option<CharacterV> {
    match v {
        JsonV::Str(raw) => match spec_doc(unesc(raw)) {
            Some(t) => character_of(t),
            None => None,
        },
        _ => None,
    }
}

/// The characters the envelope's array carries, in file order.
pub open spec fn chars_of(elems: Seq<JsonV>) -> Option<Seq<CharacterV>>
    decreases elems.len(),
{
    if elems.len() == 0 {
        Some(Seq::empty())
    } else {
        match (chars_of(elems.drop_last()), char_elem_of(elems.last())) {
            (Some(rest), Some(c)) => Some(rest.push(c)),
            _ => None,
        }
    }
}

/// A failed element fails the whole character list.
proof fn lemma_chars_of_none(elems: Seq<JsonV>, k: int)
    requires
        0 <= k < elems.len(),
        char_elem_of(elems[k]) is None,
    ensures
        chars_of(elems) is None,
    decreases elems.len(),
{
    if k < elems.len() - 1 {
        assert(elems.drop_last()[k] == elems[k]);
        lemma_chars_of_none(elems.drop_last(), k);
    }
}

/// The characters a Characters-file text denotes, in file order.
pub open spec fn spec_decode_characters(s: Seq<char>) -> Option<Seq<CharacterV>> {
    match spec_doc(s) {
        Some(v) => if v is Obj {
            match obj_lookup(v->Obj_0, "Characters.json"@) {
                Some(a) => if a is Arr {
                    chars_of(a->Arr_0)
                } else {
                    None
                },
                None => None,
            }
        } else {
            None
        },
        None => None,
    }
}

/// Read the Characters envelope from its file text: each element of the
/// envelope's one array is itself the text of a Character document. The
/// result holds exactly the characters the text denotes, sorted ascending
/// by slot number; it is nothing exactly when the text denotes none.
#[verifier::rlimit(100)]
#[verifier::loop_isolation(false)]
pub fn decode_characters(s: &str) -> (r: Option<Vec<Character>>)
    ensures
        r is Some <==> spec_decode_characters(s@) is Some,
        r matches Some(cs) ==> sorted_by_slot(cs.deep_view()) && cs.deep_view().to_multiset()
            == spec_decode_characters(s@)->Some_0.to_multiset(),
{
    let parsed = match parse_text(s) {
        Some(v) => v,
        None => {
            return None;
        },
    };
    let ghost pv = parsed.deep_view();
    let entries = match parsed {
        Json::Obj(entries) => entries,
        _ => {
            return None;
        },
    };
    proof {
        assert(pv->Obj_0 =~~= entries.deep_view());
    }
    let arr = match obj_get(&entries, &String::from_str("Characters.json")) {
        Some(x) => x,
        None => {
            return None;
        },
    };
    let elems = match arr {
        Json::Arr(elems) => elems,
        _ => {
            return None;
        },
    };
    let ghost es = arr.deep_view()->Arr_0;
    proof {
        assert(es =~~= elems.deep_view());
    }
    let mut out: Vec<Character> = Vec::new();
    let mut i: usize = 0;
    proof {
        assert(out.deep_view() =~~= Seq::<CharacterV>::empty());
        assert(chars_of(es.take(0)) == Some(out.deep_view())) by {
            assert(es.take(0) =~= Seq::<JsonV>::empty());
        }
    }
    while i < elems.len()
        invariant
            0 <= i <= elems.len(),
            es.len() == elems.len(),
            forall|k: int| 0 <= k < elems.len() ==> #[trigger] es[k] == elems[k].deep_view(),
            chars_of(es.take(i as int)) == Some(out.deep_view()),
        decreases elems.len() - i,
    {
        proof {
            assert(es.take(i + 1).drop_last() =~= es.take(i as int));
            assert(es.take(i + 1).last() == es[i as int]);
        }
        let raw = match &elems[i] {
            Json::Str(raw) => raw,
            _ => {
                proof {
                    lemma_chars_of_none(es, i as int);
                }
                return None;
            },
        };
        let inner = unescape_str(raw.as_str());
        let tree = match parse_text(inner.as_str()) {
            Some(t) => t,
            None => {
                proof {
                    lemma_chars_of_none(es, i as int);
                }
                return None;
            },
        };
        let ghost tv = tree.deep_view();
        let c = match character_from_json(&tree) {
            Some(c) => c,
            None => {
                proof {
                    lemma_chars_of_none(es, i as int);
                }
                return None;
            },
        };
        let ghost before = out.deep_view();
        out.push(c);
        proof {
            assert(out.deep_view() =~~= before.push(c.deep_view()));
            assert(char_elem_of(es[i as int]) == Some(c.deep_view()));
        }
        i += 1;
    }
    proof {
        assert(es.take(es.len() as int) =~= es);
    }
    let ghost unsorted = out.deep_view();
    sort_by_slot_vec(&mut out);
    proof {
        assert(spec_decode_characters(s@) == Some(unsorted));
        assert(out.deep_view().to_multiset() =~= unsorted.to_multiset());
    }
    Some(out)
}

} // verus!

//! The in-memory document model: the account-wide Profile and the per-slot
//! Characters, together with the ghost views that the contracts speak of.
//!
//! Numeric fields are held as `i64`. The save files carry them as JSON
//! numbers; every value the game stores in them is integral, and the codec
//! rejects a document whose numbers are not.

use vstd::prelude::*;

verus! {

/// One (name, rank) entry of the flat talent collection. The collection
/// mixes four categories (talents, blueprints, prospects, workshop items);
/// membership in a reference table is the only category tag.
pub struct Talent {
    pub row_name: String,
    pub rank: i64,
}

/// Ghost view of a `Talent`.
#[verifier::ext_equal]
pub ghost struct TalentV {
    pub row_name: Seq<char>,
    pub rank: i64,
}

impl DeepView for Talent {
    type V = TalentV;

    open spec fn deep_view(&self) -> TalentV {
        TalentV { row_name: self.row_name@, rank: self.rank }
    }
}

impl Talent {
    /// A copy with the same name and rank.
    pub fn duplicate(&self) -> (r: Talent)
        ensures
            r.deep_view() == self.deep_view(),
    {
        Talent { row_name: self.row_name.clone(), rank: self.rank }
    }
}

/// One (name, count) entry of the sparse resource list.
pub struct MetaResources {
    pub meta_row: String,
    pub count: i64,
}

/// Ghost view of a `MetaResources` entry.
#[verifier::ext_equal]
pub ghost struct MetaResourcesV {
    pub meta_row: Seq<char>,
    pub count: i64,
}

impl DeepView for MetaResources {
    type V = MetaResourcesV;

    open spec fn deep_view(&self) -> MetaResourcesV {
        MetaResourcesV { meta_row: self.meta_row@, count: self.count }
    }
}

impl MetaResources {
    /// A copy with the same name and count.
    pub fn duplicate(&self) -> (r: MetaResources)
        ensures
            r.deep_view() == self.deep_view(),
    {
        MetaResources { meta_row: self.meta_row.clone(), count: self.count }
    }
}

/// The thirteen enumerated customization values of a character.
#[derive(Clone, Copy, Debug, PartialEq, Eq, Structural)]
pub struct Cosmetics {
    pub customization_head: i64,
    pub customization_hair: i64,
    pub customization_hair_color: i64,
    pub customization_body: i64,
    pub customization_body_color: i64,
    pub customization_skin_tone: i64,
    pub customization_head_tattoo: i64,
    pub customization_head_scar: i64,
    pub customization_head_facial_hair: i64,
    pub customization_cap_logo: i64,
    pub is_male: bool,
    pub customization_voice: i64,
    pub customization_eye_color: i64,
}

/// One per-slot character document.
pub struct Character {
    pub character_name: String,
    pub character_slot: i64,
    pub xp: i64,
    pub xp_debt: i64,
    pub is_dead: bool,
    pub is_abandoned: bool,
    pub last_prospect_id: String,
    pub location: String,
    pub unlocked_flags: Vec<i64>,
    pub meta_resources: Vec<MetaResources>,
    pub cosmetics: Cosmetics,
    pub talents: Vec<Talent>,
    /// Derived at load time from the slot number; not part of the document.
    pub inventory_file: String,
    /// Derived at load time from the slot number; not part of the document.
    pub loadout_file: String,
}

/// Ghost view of a `Character`.
#[verifier::ext_equal]
pub ghost struct CharacterV {
    pub character_name: Seq<char>,
    pub character_slot: i64,
    pub xp: i64,
    pub xp_debt: i64,
    pub is_dead: bool,
    pub is_abandoned: bool,
    pub last_prospect_id: Seq<char>,
    pub location: Seq<char>,
    pub unlocked_flags: Seq<i64>,
    pub meta_resources: Seq<MetaResourcesV>,
    pub cosmetics: Cosmetics,
    pub talents: Seq<TalentV>,
    pub inventory_file: Seq<char>,
    pub loadout_file: Seq<char>,
}

impl DeepView for Character {
    type V = CharacterV;

    open spec fn deep_view(&self) -> CharacterV {
        CharacterV {
            character_name: self.character_name@,
            character_slot: self.character_slot,
            xp: self.xp,
            xp_debt: self.xp_debt,
            is_dead: self.is_dead,
            is_abandoned: self.is_abandoned,
            last_prospect_id: self.last_prospect_id@,
            location: self.location@,
            unlocked_flags: self.unlocked_flags.deep_view(),
            meta_resources: self.meta_resources.deep_view(),
            cosmetics: self.cosmetics,
            talents: self.talents.deep_view(),
            inventory_file: self.inventory_file@,
            loadout_file: self.loadout_file@,
        }
    }
}

/// The account-wide profile document.
pub struct Profile {
    pub user_id: String,
    pub meta_resources: Vec<MetaResources>,
    pub unlocked_flags: Vec<i64>,
    pub talents: Vec<Talent>,
}

/// Ghost view of a `Profile`.
#[verifier::ext_equal]
pub ghost struct ProfileV {
    pub user_id: Seq<char>,
    pub meta_resources: Seq<MetaResourcesV>,
    pub unlocked_flags: Seq<i64>,
    pub talents: Seq<TalentV>,
}

impl DeepView for Profile {
    type V = ProfileV;

    open spec fn deep_view(&self) -> ProfileV {
        ProfileV {
            user_id: self.user_id@,
            meta_resources: self.meta_resources.deep_view(),
            unlocked_flags: self.unlocked_flags.deep_view(),
            talents: self.talents.deep_view(),
        }
    }
}

} // verus!

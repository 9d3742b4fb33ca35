use vstd::prelude::*;

verus! {

/// The known schema revisions, oldest first.
#[derive(Clone, Copy, PartialEq, Eq, Debug, Hash, Structural)]
pub enum Version {
    /// First revision.
    V19_00,
    /// Mass and moment of inertia introduced.
    V19_03,
    /// Bounding boxes stored in tree split nodes.
    V20_00,
    /// Paths name their parent.
    V20_02,
    /// Last revision whose thruster glows have no radius.
    V20_04,
    /// Embedded light markers.
    V20_07,
    /// Mass stored as area mass.
    V20_09,
    /// Cross-sections.
    V20_14,
    V20_16,
    /// Current header and subobject layout.
    V21_16,
    /// Thruster banks carry a property string.
    V21_17,
    /// Weapon hardpoints carry an angle offset; shield partition tree.
    V21_18,
    /// Shield partition tree with wide chunk tags, no hardpoint offset.
    V22_00,
    /// As the one before, with the hardpoint offset.
    V22_01,
    /// Wide vertex and normal indices, unified leaf chunk.
    V23_00,
}

impl Version {
    /// The number a file carries for this revision.
    pub open spec fn number(self) -> int {
        match self {
            Version::V19_00 => 1900,
            Version::V19_03 => 1903,
            Version::V20_00 => 2000,
            Version::V20_02 => 2002,
            Version::V20_04 => 2004,
            Version::V20_07 => 2007,
            Version::V20_09 => 2009,
            Version::V20_14 => 2014,
            Version::V20_16 => 2016,
            Version::V21_16 => 2116,
            Version::V21_17 => 2117,
            Version::V21_18 => 2118,
            Version::V22_00 => 2200,
            Version::V22_01 => 2201,
            Version::V23_00 => 2300,
        }
    }

    /// The revisions are ordered by their numbers.
    pub open spec fn at_least(self, other: Version) -> bool {
        self.number() >= other.number()
    }

    /// Whether this revision is later than `other`.
    pub open spec fn after(self, other: Version) -> bool {
        self.number() > other.number()
    }

    /// The newest revision.
    pub open spec fn latest() -> Version {
        Version::V23_00
    }

    /// The number a file carries for this revision.
    pub fn to_i32(self) -> (n: i32)
        ensures
            n == self.number(),
    {
        match self {
            Version::V19_00 => 1900,
            Version::V19_03 => 1903,
            Version::V20_00 => 2000,
            Version::V20_02 => 2002,
            Version::V20_04 => 2004,
            Version::V20_07 => 2007,
            Version::V20_09 => 2009,
            Version::V20_14 => 2014,
            Version::V20_16 => 2016,
            Version::V21_16 => 2116,
            Version::V21_17 => 2117,
            Version::V21_18 => 2118,
            Version::V22_00 => 2200,
            Version::V22_01 => 2201,
            Version::V23_00 => 2300,
        }
    }

    /// The revision with the given number, if it is a known one.
    pub fn from_i32(n: i32) -> (r: Option<Version>)
        ensures
            r == Self::of_number(n as int),
    {
        if n == 1900 {
            Some(Version::V19_00)
        } else if n == 1903 {
            Some(Version::V19_03)
        } else if n == 2000 {
            Some(Version::V20_00)
        } else if n == 2002 {
            Some(Version::V20_02)
        } else if n == 2004 {
            Some(Version::V20_04)
        } else if n == 2007 {
            Some(Version::V20_07)
        } else if n == 2009 {
            Some(Version::V20_09)
        } else if n == 2014 {
            Some(Version::V20_14)
        } else if n == 2016 {
            Some(Version::V20_16)
        } else if n == 2116 {
            Some(Version::V21_16)
        } else if n == 2117 {
            Some(Version::V21_17)
        } else if n == 2118 {
            Some(Version::V21_18)
        } else if n == 2200 {
            Some(Version::V22_00)
        } else if n == 2201 {
            Some(Version::V22_01)
        } else if n == 2300 {
            Some(Version::V23_00)
        } else {
            None
        }
    }

    /// The inverse of [`Version::number`].
    pub open spec fn of_number(n: int) -> Option<Version> {
        if n == 1900 {
            Some(Version::V19_00)
        } else if n == 1903 {
            Some(Version::V19_03)
        } else if n == 2000 {
            Some(Version::V20_00)
        } else if n == 2002 {
            Some(Version::V20_02)
        } else if n == 2004 {
            Some(Version::V20_04)
        } else if n == 2007 {
            Some(Version::V20_07)
        } else if n == 2009 {
            Some(Version::V20_09)
        } else if n == 2014 {
            Some(Version::V20_14)
        } else if n == 2016 {
            Some(Version::V20_16)
        } else if n == 2116 {
            Some(Version::V21_16)
        } else if n == 2117 {
            Some(Version::V21_17)
        } else if n == 2118 {
            Some(Version::V21_18)
        } else if n == 2200 {
            Some(Version::V22_00)
        } else if n == 2201 {
            Some(Version::V22_01)
        } else if n == 2300 {
            Some(Version::V23_00)
        } else {
            None
        }
    }

    /// Whether this revision is `other` or a later one.
    pub fn ge(self, other: Version) -> (b: bool)
        ensures
            b == self.at_least(other),
    {
        self.to_i32() >= other.to_i32()
    }

    /// Whether this revision is later than `other`.
    pub fn gt(self, other: Version) -> (b: bool)
        ensures
            b == self.after(other),
    {
        self.to_i32() > other.to_i32()
    }

    /// The newest revision.
    pub fn newest() -> (v: Version)
        ensures
            v == Self::latest(),
    {
        Version::V23_00
    }
}

/// The layout of a revision: which fields it stores and in which form.
/// Every decision that depends on the revision is made here.
impl Version {
    /// The mass, the centre of mass and the moment of inertia are stored.
    pub open spec fn spec_stores_mass(self) -> bool {
        self.at_least(Version::V19_03)
    }

    /// The mass, the centre of mass and the moment of inertia are stored.
    #[verifier::when_used_as_spec(spec_stores_mass)]
    pub fn stores_mass(self) -> (b: bool)
        ensures
            b == self.spec_stores_mass(),
    {
        self.ge(Version::V19_03)
    }

    /// The splits of the subobject tree store their boxes.
    pub open spec fn spec_stores_split_boxes(self) -> bool {
        self.at_least(Version::V20_00)
    }

    /// The splits of the subobject tree store their boxes.
    #[verifier::when_used_as_spec(spec_stores_split_boxes)]
    pub fn stores_split_boxes(self) -> (b: bool)
        ensures
            b == self.spec_stores_split_boxes(),
    {
        self.ge(Version::V20_00)
    }

    /// Paths name their parent.
    pub open spec fn spec_names_path_parents(self) -> bool {
        self.at_least(Version::V20_02)
    }

    /// Paths name their parent.
    #[verifier::when_used_as_spec(spec_names_path_parents)]
    pub fn names_path_parents(self) -> (b: bool)
        ensures
            b == self.spec_names_path_parents(),
    {
        self.ge(Version::V20_02)
    }

    /// Thruster glows store their radius.
    pub open spec fn spec_stores_glow_radius(self) -> bool {
        self.after(Version::V20_04)
    }

    /// Thruster glows store their radius.
    #[verifier::when_used_as_spec(spec_stores_glow_radius)]
    pub fn stores_glow_radius(self) -> (b: bool)
        ensures
            b == self.spec_stores_glow_radius(),
    {
        self.gt(Version::V20_04)
    }

    /// The header stores the light markers.
    pub open spec fn spec_stores_lights(self) -> bool {
        self.at_least(Version::V20_07)
    }

    /// The header stores the light markers.
    #[verifier::when_used_as_spec(spec_stores_lights)]
    pub fn stores_lights(self) -> (b: bool)
        ensures
            b == self.spec_stores_lights(),
    {
        self.ge(Version::V20_07)
    }

    /// The header stores the cross-sections.
    pub open spec fn spec_stores_cross_sections(self) -> bool {
        self.at_least(Version::V20_14)
    }

    /// The header stores the cross-sections.
    #[verifier::when_used_as_spec(spec_stores_cross_sections)]
    pub fn stores_cross_sections(self) -> (b: bool)
        ensures
            b == self.spec_stores_cross_sections(),
    {
        self.ge(Version::V20_14)
    }

    /// The header and the subobjects have the current order of fields and the current tags.
    pub open spec fn spec_current_layout(self) -> bool {
        self.at_least(Version::V21_16)
    }

    /// The header and the subobjects have the current order of fields and the current tags.
    #[verifier::when_used_as_spec(spec_current_layout)]
    pub fn current_layout(self) -> (b: bool)
        ensures
            b == self.spec_current_layout(),
    {
        self.ge(Version::V21_16)
    }

    /// Thruster banks store their properties.
    pub open spec fn spec_stores_thruster_properties(self) -> bool {
        self.at_least(Version::V21_17)
    }

    /// Thruster banks store their properties.
    #[verifier::when_used_as_spec(spec_stores_thruster_properties)]
    pub fn stores_thruster_properties(self) -> (b: bool)
        ensures
            b == self.spec_stores_thruster_properties(),
    {
        self.ge(Version::V21_17)
    }

    /// The shield tree is stored.
    pub open spec fn spec_stores_shield_tree(self) -> bool {
        self.at_least(Version::V21_18)
    }

    /// The shield tree is stored.
    #[verifier::when_used_as_spec(spec_stores_shield_tree)]
    pub fn stores_shield_tree(self) -> (b: bool)
        ensures
            b == self.spec_stores_shield_tree(),
    {
        self.ge(Version::V21_18)
    }

    /// The shield tree has tags of four bytes.
    pub open spec fn spec_wide_shield_tags(self) -> bool {
        self.at_least(Version::V22_00)
    }

    /// The shield tree has tags of four bytes.
    #[verifier::when_used_as_spec(spec_wide_shield_tags)]
    pub fn wide_shield_tags(self) -> (b: bool)
        ensures
            b == self.spec_wide_shield_tags(),
    {
        self.ge(Version::V22_00)
    }

    /// The subobject tree has the current layout: wide indices, one chunk for each leaf, no branch terminators.
    pub open spec fn spec_current_tree(self) -> bool {
        self.at_least(Version::V23_00)
    }

    /// The subobject tree has the current layout: wide indices, one chunk for each leaf, no branch terminators.
    #[verifier::when_used_as_spec(spec_current_tree)]
    pub fn current_tree(self) -> (b: bool)
        ensures
            b == self.spec_current_tree(),
    {
        self.ge(Version::V23_00)
    }

    /// Weapon hardpoints store their angle offset: from `V21_18` on, but
    /// not in `V22_00`.
    pub open spec fn spec_stores_hardpoint_offset(self) -> bool {
        self.at_least(Version::V21_18) && self != Version::V22_00
    }

    /// Weapon hardpoints store their angle offset: from `V21_18` on, but
    /// not in `V22_00`.
    #[verifier::when_used_as_spec(spec_stores_hardpoint_offset)]
    pub fn stores_hardpoint_offset(self) -> (b: bool)
        ensures
            b == self.spec_stores_hardpoint_offset(),
    {
        self.ge(Version::V21_18) && self != Version::V22_00
    }

    /// The shield tree has tags of one byte.
    pub open spec fn spec_narrow_shield_tags(self) -> bool {
        !self.at_least(Version::V22_00)
    }

    /// The shield tree has tags of one byte.
    #[verifier::when_used_as_spec(spec_narrow_shield_tags)]
    pub fn narrow_shield_tags(self) -> (b: bool)
        ensures
            b == self.spec_narrow_shield_tags(),
    {
        !self.ge(Version::V22_00)
    }
}

/// How a revision stores the mass of a model.
#[derive(Clone, Copy, PartialEq, Eq, Debug, Structural)]
pub enum MassLayout {
    /// Not at all: the reader fills in the defaults.
    Absent,
    /// As a volume mass.
    Volume,
    /// As an area mass.
    Area,
}

impl Version {
    pub open spec fn spec_mass_layout(self) -> MassLayout {
        if !self.stores_mass() {
            MassLayout::Absent
        } else if !self.at_least(Version::V20_09) {
            MassLayout::Volume
        } else {
            MassLayout::Area
        }
    }

    /// How the revision stores the mass of a model.
    #[verifier::when_used_as_spec(spec_mass_layout)]
    pub fn mass_layout(self) -> (r: MassLayout)
        ensures
            r == self.spec_mass_layout(),
    {
        if !self.stores_mass() {
            MassLayout::Absent
        } else if !self.ge(Version::V20_09) {
            MassLayout::Volume
        } else {
            MassLayout::Area
        }
    }
}

/// A number decodes to a revision exactly when it is that revision's own
/// number, so the order of the revisions is total and has no ties.
pub proof fn lemma_version_numbers(v: Version, w: Version)
    ensures
        Version::of_number(v.number()) == Some(v),
        v.number() == w.number() ==> v == w,
        v.at_least(w) || w.at_least(v),
        Version::latest().at_least(v),
{
}

} // verus!

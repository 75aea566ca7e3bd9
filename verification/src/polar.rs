//! The record data model: a `Polar` tuning record with its nested
//! sub-records, the store's error taxonomy, and the ghost-level view of a
//! record that the store's contracts speak of.
//!
//! The tuning scalars are carried as the 64-bit patterns of the stored
//! numbers: the store never computes with them, it only moves them between
//! the caller and the files.

use vstd::prelude::*;
use vstd::string::*;

verus! {

/// Foil tuning: a speed ratio and the wind-angle / wind-speed ranges over
/// which it applies.
#[derive(Clone, Copy, PartialEq, Eq, Structural, Debug)]
pub struct Foil {
    pub speed_ratio: u64,
    pub twa_min: u64,
    pub twa_max: u64,
    pub twa_merge: u64,
    pub tws_min: u64,
    pub tws_max: u64,
    pub tws_merge: u64,
}

/// Hull tuning: a single speed ratio.
#[derive(Clone, Copy, PartialEq, Eq, Structural, Debug)]
pub struct Hull {
    pub speed_ratio: u64,
}

/// One penalty: a ratio and a timer in seconds.
#[derive(Clone, Copy, PartialEq, Eq, Structural, Debug)]
pub struct Penalty {
    pub ratio: u64,
    pub timer: u16,
}

/// The low-wind / high-wind pair of penalties of a manoeuvre.
#[derive(Clone, Copy, PartialEq, Eq, Structural, Debug)]
pub struct PenaltyBoundaries {
    pub lw: Penalty,
    pub hw: Penalty,
}

/// The penalties of one manoeuvre, for the standard and pro settings.
#[derive(Clone, Copy, PartialEq, Eq, Structural, Debug)]
pub struct PenaltyCase {
    pub std_timer_sec: u16,
    pub std_ratio: u64,
    pub pro_timer_sec: u16,
    pub pro_ratio: u64,
    pub std: PenaltyBoundaries,
}

/// Winch tuning: the three manoeuvre penalty cases and the wind thresholds
/// between which they are interpolated.
#[derive(Clone, Copy, PartialEq, Eq, Structural, Debug)]
pub struct Winch {
    pub tack: PenaltyCase,
    pub gybe: PenaltyCase,
    pub sail_change: PenaltyCase,
    pub lws: u8,
    pub hws: u8,
}

/// One sail: its small-integer id, its name, and its speed table.
#[derive(Debug)]
pub struct Sail {
    pub id: u8,
    pub name: String,
    pub speed: Vec<Vec<u64>>,
}

/// Ghost view of a `Sail`.
#[verifier::ext_equal]
pub ghost struct SailV {
    pub id: u8,
    pub name: Seq<char>,
    pub speed: Seq<Seq<u64>>,
}

impl View for Sail {
    type V = SailV;

    open spec fn view(&self) -> SailV {
        SailV { id: self.id, name: self.name@, speed: self.speed.deep_view() }
    }
}

impl DeepView for Sail {
    type V = SailV;

    open spec fn deep_view(&self) -> SailV {
        self.view()
    }
}

/// The central record: a named configuration of sailing-performance tuning
/// parameters.
#[derive(Debug)]
pub struct Polar {
    /// The primary key. Derived from the file name when a record is read; a
    /// value embedded in file content is overridden by the file name.
    pub id: Option<String>,
    /// The small-integer secondary id; not guaranteed unique.
    pub polar_id: u8,
    /// Whether the record was found in the archived directory. Never taken
    /// from file content.
    pub archived: bool,
    /// Free-text label; its last path segment can stand in for a missing id.
    pub label: String,
    pub global_speed_ratio: u64,
    pub ice_speed_ratio: u64,
    pub auto_sail_change_tolerance: u64,
    pub bad_sail_tolerance: u64,
    pub max_speed: u64,
    pub foil: Foil,
    pub hull: Hull,
    pub winch: Winch,
    pub tws: Vec<u8>,
    pub twa: Vec<u8>,
    pub sail: Vec<Sail>,
}

/// Ghost view of a `Polar`.
#[verifier::ext_equal]
pub ghost struct PolarV {
    pub id: Option<Seq<char>>,
    pub polar_id: u8,
    pub archived: bool,
    pub label: Seq<char>,
    pub global_speed_ratio: u64,
    pub ice_speed_ratio: u64,
    pub auto_sail_change_tolerance: u64,
    pub bad_sail_tolerance: u64,
    pub max_speed: u64,
    pub foil: Foil,
    pub hull: Hull,
    pub winch: Winch,
    pub tws: Seq<u8>,
    pub twa: Seq<u8>,
    pub sail: Seq<SailV>,
}

impl View for Polar {
    type V = PolarV;

    open spec fn view(&self) -> PolarV {
        PolarV {
            id: self.id.deep_view(),
            polar_id: self.polar_id,
            archived: self.archived,
            label: self.label@,
            global_speed_ratio: self.global_speed_ratio,
            ice_speed_ratio: self.ice_speed_ratio,
            auto_sail_change_tolerance: self.auto_sail_change_tolerance,
            bad_sail_tolerance: self.bad_sail_tolerance,
            max_speed: self.max_speed,
            foil: self.foil,
            hull: self.hull,
            winch: self.winch,
            tws: self.tws@,
            twa: self.twa@,
            sail: self.sail.deep_view(),
        }
    }
}

impl DeepView for Polar {
    type V = PolarV;

    open spec fn deep_view(&self) -> PolarV {
        self.view()
    }
}

/// The record `p` with its identity replaced: primary key `id` and location
/// flag `archived`, the two attributes that the store derives from where a
/// file sits rather than from its content.
pub open spec fn with_identity(p: PolarV, id: Seq<char>, archived: bool) -> PolarV {
    PolarV { id: Some(id), archived, ..p }
}

fn copy_u8s(v: &Vec<u8>) -> (r: Vec<u8>)
    ensures
        r@ == v@,
{
    let mut r: Vec<u8> = Vec::new();
    let mut i: usize = 0;
    while i < v.len()
        invariant
            0 <= i <= v.len(),
            r@ =~= v@.subrange(0, i as int),
        decreases v.len() - i,
    {
        r.push(v[i]);
        i += 1;
    }
    proof {
        assert(r@ =~= v@);
    }
    r
}

fn copy_u64s(v: &Vec<u64>) -> (r: Vec<u64>)
    ensures
        r@ == v@,
{
    let mut r: Vec<u64> = Vec::new();
    let mut i: usize = 0;
    while i < v.len()
        invariant
            0 <= i <= v.len(),
            r@ =~= v@.subrange(0, i as int),
        decreases v.len() - i,
    {
        r.push(v[i]);
        i += 1;
    }
    proof {
        assert(r@ =~= v@);
    }
    r
}

fn copy_u64_table(v: &Vec<Vec<u64>>) -> (r: Vec<Vec<u64>>)
    ensures
        r.deep_view() == v.deep_view(),
{
    let mut r: Vec<Vec<u64>> = Vec::new();
    let mut i: usize = 0;
    while i < v.len()
        invariant
            0 <= i <= v.len(),
            r@.len() == i,
            forall|j: int| 0 <= j < i ==> r@[j]@ == v@[j]@,
        decreases v.len() - i,
    {
        r.push(copy_u64s(&v[i]));
        i += 1;
    }
    proof {
        assert(r.deep_view() =~~= v.deep_view());
    }
    r
}

impl Clone for Sail {
    /// A clone carries the same view.
    fn clone(&self) -> (r: Self)
        ensures
            r@ == self@,
    {
        let r = Sail { id: self.id, name: self.name.clone(), speed: copy_u64_table(&self.speed) };
        proof {
            assert(r@ =~~= self@);
        }
        r
    }
}

fn copy_sails(v: &Vec<Sail>) -> (r: Vec<Sail>)
    ensures
        r.deep_view() == v.deep_view(),
{
    let mut r: Vec<Sail> = Vec::new();
    let mut i: usize = 0;
    while i < v.len()
        invariant
            0 <= i <= v.len(),
            r@.len() == i,
            forall|j: int| 0 <= j < i ==> r@[j]@ == v@[j]@,
        decreases v.len() - i,
    {
        let s = v[i].clone();
        r.push(s);
        i += 1;
    }
    proof {
        assert(r.deep_view() =~~= v.deep_view());
    }
    r
}

impl Clone for Polar {
    /// A clone carries the same view.
    fn clone(&self) -> (r: Self)
        ensures
            r@ == self@,
    {
        let id = match &self.id {
            Some(s) => Some(s.clone()),
            None => None,
        };
        let r = Polar {
            id,
            polar_id: self.polar_id,
            archived: self.archived,
            label: self.label.clone(),
            global_speed_ratio: self.global_speed_ratio,
            ice_speed_ratio: self.ice_speed_ratio,
            auto_sail_change_tolerance: self.auto_sail_change_tolerance,
            bad_sail_tolerance: self.bad_sail_tolerance,
            max_speed: self.max_speed,
            foil: self.foil,
            hull: self.hull,
            winch: self.winch,
            tws: copy_u8s(&self.tws),
            twa: copy_u8s(&self.twa),
            sail: copy_sails(&self.sail),
        };
        proof {
            assert(r@ =~~= self@);
        }
        r
    }
}

/// The store's error taxonomy.
#[derive(Debug)]
pub enum PolarError {
    /// A record with the given id already sits where uniqueness is required.
    AlreadyExists(String),
    /// No record with the given id sits in the locations searched.
    NotFound(String),
    /// A record was handed in for creation without a primary key.
    IdIsMandatory(),
}

/// The diagnostic line of an error.
pub open spec fn spec_message(e: PolarError) -> Seq<char> {
    match e {
        PolarError::AlreadyExists(id) => "Polar "@ + id@ + " already exists."@,
        PolarError::NotFound(id) => "Polar "@ + id@ + " does not exist."@,
        PolarError::IdIsMandatory() => "Id is mandatory"@,
    }
}

impl PolarError {
    /// Render the error as its diagnostic line.
    pub fn message(&self) -> (m: String)
        ensures
            m@ == spec_message(*self),
    {
        match self {
            PolarError::AlreadyExists(id) => String::from_str("Polar ").concat(id.as_str()).concat(
                " already exists.",
            ),
            PolarError::NotFound(id) => String::from_str("Polar ").concat(id.as_str()).concat(
                " does not exist.",
            ),
            PolarError::IdIsMandatory() => String::from_str("Id is mandatory"),
        }
    }
}

} // verus!

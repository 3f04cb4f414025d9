//! Where a cluster of endpoints is located.

use vstd::prelude::*;
use vstd::string::StringExecFns;

use crate::text::str_eq;

verus! {

/// The location of a cluster: a region, a zone in it and a sub-zone in that.
/// An empty string stands for a part that is not given.
#[derive(Debug)]
pub struct Locality {
    pub region: String,
    pub zone: String,
    pub sub_zone: String,
}

/// What a locality holds.
pub ghost struct LocalityView {
    pub region: Seq<char>,
    pub zone: Seq<char>,
    pub sub_zone: Seq<char>,
}

impl LocalityView {
    /// The text form of a locality: the region, then the zone and the
    /// sub-zone, each behind a colon and left out where it is empty.
    pub open spec fn text(self) -> Seq<char> {
        self.region + (if self.zone.len() > 0 {
            seq![':'] + self.zone
        } else {
            Seq::empty()
        }) + (if self.sub_zone.len() > 0 {
            seq![':'] + self.sub_zone
        } else {
            Seq::empty()
        })
    }
}

impl View for Locality {
    type V = LocalityView;

    open spec fn view(&self) -> LocalityView {
        LocalityView { region: self.region@, zone: self.zone@, sub_zone: self.sub_zone@ }
    }
}

impl Clone for Locality {
    fn clone(&self) -> (copy: Locality)
        ensures
            copy@ == self@,
    {
        Locality {
            region: self.region.clone(),
            zone: self.zone.clone(),
            sub_zone: self.sub_zone.clone(),
        }
    }
}

impl PartialEq for Locality {
    fn eq(&self, other: &Locality) -> (same: bool) {
        str_eq(self.region.as_str(), other.region.as_str()) && str_eq(
            self.zone.as_str(),
            other.zone.as_str(),
        ) && str_eq(self.sub_zone.as_str(), other.sub_zone.as_str())
    }
}

impl Eq for Locality {}

impl vstd::std_specs::cmp::PartialEqSpecImpl for Locality {
    open spec fn obeys_eq_spec() -> bool {
        true
    }

    open spec fn eq_spec(&self, other: &Locality) -> bool {
        self@ == other@
    }
}

impl Locality {
    /// The locality of the given region, zone and sub-zone.
    pub fn new(region: String, zone: String, sub_zone: String) -> (locality: Locality)
        ensures
            locality@ == (LocalityView { region: region@, zone: zone@, sub_zone: sub_zone@ }),
    {
        Locality { region, zone, sub_zone }
    }

    /// The locality of the given region, without zone and sub-zone.
    pub fn with_region(region: String) -> (locality: Locality)
        ensures
            locality@ == (LocalityView {
                region: region@,
                zone: Seq::empty(),
                sub_zone: Seq::empty(),
            }),
    {
        Locality { region, zone: String::new(), sub_zone: String::new() }
    }

    /// The text form of this locality.
    pub fn colon_separated_string(&self) -> (text: String)
        ensures
            text@ == self@.text(),
    {
        proof {
            reveal_strlit(":");
        }
        let mut text = self.region.clone();
        if !self.zone.as_str().is_empty() {
            text.append(":");
            text.append(self.zone.as_str());
        }
        if !self.sub_zone.as_str().is_empty() {
            text.append(":");
            text.append(self.sub_zone.as_str());
        }
        assert(text@ =~= self@.text());
        text
    }

    /// The text form of this locality.
    pub fn to_string(&self) -> (text: String)
        ensures
            text@ == self@.text(),
    {
        self.colon_separated_string()
    }
}

} // verus!

//! Operator-tunable settings for ingestion and display.

use vstd::prelude::*;

verus! {

/// Where to connect and how much data to keep and show. Ages are in
/// seconds, heights in feet.
#[derive(Debug)]
pub struct Settings {
    pub hostname: String,
    pub show_axis: bool,
    pub max_data_age: u32,
    pub max_display_age: u32,
    pub min_display_height: u32,
    pub max_display_height: u32,
}

impl Settings {
    /// Data must be kept at least as long as it can be displayed.
    pub open spec fn ages_consistent(&self) -> bool {
        self.max_data_age >= self.max_display_age
    }

    /// Re-establish the age rule after the display age was raised: keep
    /// data at least as long as it is shown.
    pub fn enforce_age_rule(&mut self)
        ensures
            final(self).max_data_age == if old(self).max_data_age >= old(self).max_display_age {
                old(self).max_data_age
            } else {
                old(self).max_display_age
            },
            final(self).max_display_age == old(self).max_display_age,
            final(self).hostname == old(self).hostname,
            final(self).show_axis == old(self).show_axis,
            final(self).min_display_height == old(self).min_display_height,
            final(self).max_display_height == old(self).max_display_height,
            final(self).ages_consistent(),
    {
        if self.max_data_age < self.max_display_age {
            self.max_data_age = self.max_display_age;
        }
    }
}

impl Default for Settings {
    /// The defaults: an hour of data kept, ten minutes shown, the y axis
    /// drawn from the ground to 70000 feet.
    fn default() -> (s: Settings)
        ensures
            s.hostname@ == "192.168.2.48:30002"@,
            s.show_axis == true,
            s.max_data_age == 3600,
            s.max_display_age == 600,
            s.min_display_height == 0,
            s.max_display_height == 70000,
            s.ages_consistent(),
    {
        Settings {
            hostname: "192.168.2.48:30002".to_owned(),
            show_axis: true,
            max_data_age: 60 * 60,
            max_display_age: 10 * 60,
            min_display_height: 0,
            max_display_height: 70000,
        }
    }
}

} // verus!

//! Settings for the rotating autosave: a fixed prefix and a save slot that
//! cycles through a bounded number of files.

use crate::text::{append_u64, spec_u64_digits};
use vstd::prelude::*;

verus! {

/// Where autosaves go: `prefix<slot>.json`, with the slot cycling below
/// `max_saves`.
#[derive(Debug)]
pub struct AutosaveSettings {
    pub prefix: String,
    pub max_saves: u32,
    pub save: u32,
}

impl AutosaveSettings {
    /// Step to the next save slot and name its file.
    pub fn get_save_path(&mut self) -> (r: String)
        requires
            old(self).max_saves > 0,
        ensures
            final (self).save as int == (old(self).save as int + 1) % (old(self).max_saves as int),
            final (self).prefix == old(self).prefix,
            final (self).max_saves == old(self).max_saves,
            r@ == old(self).prefix@ + spec_u64_digits(final (self).save as int) + ".json"@,
    {
        let next: u64 = (self.save as u64 + 1) % (self.max_saves as u64);
        self.save = next as u32;
        let mut out = self.prefix.clone();
        append_u64(&mut out, next);
        out.append(".json");
        out
    }
}

impl Default for AutosaveSettings {
    /// Five rotating saves under the `.auto` prefix.
    fn default() -> (r: Self)
        ensures
            r.prefix@ == ".auto"@,
            r.max_saves == 5,
            r.save == 0,
    {
        AutosaveSettings { prefix: String::from_str(".auto"), max_saves: 5, save: 0 }
    }
}

} // verus!

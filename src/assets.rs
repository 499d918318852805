use vstd::prelude::*;

verus! {

/// Where the game's installation lives, when known.
#[derive(Debug)]
pub struct CelesteAssets {
    pub celeste_dir: Option<String>,
}

impl CelesteAssets {
    /// Starts from the directory found by looking in the usual places, if any.
    pub fn new(detected: Option<String>) -> (r: Self)
        ensures
            r.celeste_dir == detected,
    {
        CelesteAssets { celeste_dir: detected }
    }

    /// Uses `path` as the installation directory; always accepted.
    pub fn set_celeste_dir(&mut self, path: &str) -> (r: bool)
        ensures
            r,
            final(self).celeste_dir matches Some(d) && d@ == path@,
    {
        self.celeste_dir = Some(path.to_owned());
        true
    }

    /// Forgets the installation directory.
    pub fn clear_celeste_dir(&mut self)
        ensures
            final(self).celeste_dir is None,
    {
        self.celeste_dir = None;
    }
}

} // verus!

//! `camello.toml`: the `[check]` table a project writes once.
//!
//! ```toml
//! [check]
//! lib = ["lib", "t"]
//! stubs = ["stubs"]
//! disable = ["unused-variable"]
//! error-on = "warning"
//! min-severity = "warning"
//! guard-classes = ["My::Lock"]
//! strict-annotations = true
//!
//! [check.read-as]
//! "My::Accessors" = "Class::Accessor::Typed"
//! ```
//!
//! Every field is optional, and a flag on the command line wins over it — the
//! file says what the project is, and the flag says what this run is.

use vstd::prelude::*;

use crate::annotate::Dialect;
use crate::diag::{find_code, all_codes, Code};

verus! {

/// A `camello.toml` that does not parse, named with the path it was read from.
#[derive(Debug)]
pub struct Error {
    pub path: String,
    pub message: String,
}

impl Error {
    /// `path: message`, the way the command line prints it.
    pub fn render(&self) -> (out: String)
        ensures
            out@ == self.path@ + ": "@ + self.message@,
    {
        let mut out = String::new();
        crate::text::append(&mut out, self.path.as_str());
        crate::text::append(&mut out, ": ");
        crate::text::append(&mut out, self.message.as_str());
        out
    }
}

/// The whole file.
#[derive(Debug)]
pub struct Config {
    pub check: Check,
}

/// The `[check]` table.
#[derive(Debug)]
pub struct Check {
    /// Directories to add to the roots.
    pub lib: Vec<String>,
    /// Directories of stub modules.
    pub stubs: Vec<String>,
    /// Codes this project has turned off.
    pub disable: Vec<String>,
    /// The severity that makes a run fail.
    pub error_on: Option<String>,
    /// The quietest severity worth printing.
    pub min_severity: Option<String>,
    /// Classes this project holds a value of for its destructor.
    pub guard_classes: Vec<String>,
    /// Report a public sub with no annotation.
    pub strict_annotations: bool,
    /// A module of this project's own, and the module whose interface it
    /// re-exports, sorted by the first.
    pub read_as: Vec<(String, String)>,
}

impl Default for Check {
    fn default() -> (c: Check)
        ensures
            c.lib@.len() == 0,
            c.stubs@.len() == 0,
            c.disable@.len() == 0,
            c.error_on is None,
            c.min_severity is None,
            c.guard_classes@.len() == 0,
            !c.strict_annotations,
            c.read_as@.len() == 0,
    {
        Check {
            lib: Vec::new(),
            stubs: Vec::new(),
            disable: Vec::new(),
            error_on: None,
            min_severity: None,
            guard_classes: Vec::new(),
            strict_annotations: false,
            read_as: Vec::new(),
        }
    }
}

impl Default for Config {
    fn default() -> (c: Config)
        ensures
            c.check.lib@.len() == 0,
            c.check.disable@.len() == 0,
            !c.check.strict_annotations,
            c.check.read_as@.len() == 0,
    {
        Config { check: Check::default() }
    }
}

/// The codes among `names` that are codes, in order.
pub open spec fn known_codes(names: Seq<Seq<char>>) -> Seq<Code>
    decreases names.len(),
{
    if names.len() == 0 {
        Seq::empty()
    } else {
        match find_code(all_codes(), names.last(), 0) {
            Some(c) => known_codes(names.drop_last()).push(c),
            None => known_codes(names.drop_last()),
        }
    }
}

impl Check {
    /// The codes `disable` names; a name that is no code is passed over.
    pub fn disabled_codes(&self) -> (out: Vec<Code>)
        ensures
            out@ == known_codes(self.disable@.map_values(|s: String| s@)),
    {
        let ghost names = self.disable@.map_values(|s: String| s@);
        let mut out: Vec<Code> = Vec::new();
        let mut i: usize = 0;
        while i < self.disable.len()
            invariant
                i <= self.disable@.len(),
                names == self.disable@.map_values(|s: String| s@),
                out@ == known_codes(names.subrange(0, i as int)),
            decreases self.disable@.len() - i,
        {
            proof {
                assert(names.subrange(0, i + 1).drop_last() =~= names.subrange(0, i as int));
                assert(names.subrange(0, i + 1).last() == self.disable@[i as int]@);
            }
            match Code::parse(self.disable[i].as_str()) {
                Some(c) => out.push(c),
                None => {},
            }
            i += 1;
        }
        assert(names.subrange(0, self.disable@.len() as int) =~= names);
        out
    }

    /// The dialect `read-as` describes.
    pub fn dialect(&self) -> (d: Dialect)
        ensures
            crate::annotate::keys_sorted(d.entries()),
            crate::annotate::entries_map(d.entries()) == crate::annotate::table_of(
                crate::annotate::pair_views(self.read_as@),
                self.read_as@.len() as int,
            ),
    {
        let mut pairs: Vec<(String, String)> = Vec::new();
        let mut i: usize = 0;
        while i < self.read_as.len()
            invariant
                i <= self.read_as@.len(),
                crate::annotate::pair_views(pairs@) == crate::annotate::pair_views(self.read_as@).subrange(0, i as int),
            decreases self.read_as@.len() - i,
        {
            let (a, b) = &self.read_as[i];
            let ghost v = crate::annotate::pair_views(pairs@);
            pairs.push((a.clone(), b.clone()));
            proof {
                assert(crate::annotate::pair_views(pairs@) =~= v.push((a@, b@)));
                assert(crate::annotate::pair_views(pairs@) =~= crate::annotate::pair_views(self.read_as@).subrange(0, i + 1));
            }
            i += 1;
        }
        assert(crate::annotate::pair_views(self.read_as@).subrange(0, self.read_as@.len() as int) =~= crate::annotate::pair_views(self.read_as@));
        Dialect::new(pairs)
    }
}

} // verus!

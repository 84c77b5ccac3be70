//! The factory side of the bytecode rule backend.
//!
//! The same decision work as for the scripted backend: parse the rule
//! header, pick the registered loader whose tag the body starts
//! with, and hand tag and body to the caller, who loads the bytes
//! and runs them.
use crate::error::ParseError;
use crate::lua_runtime_builder::check_header;
use crate::lua_runtime_builder::spec_first_prefix;
use crate::lua_runtime_builder::spec_tags_of;
use crate::text::str_starts_with;
use crate::value::str_eq;
use vstd::prelude::*;

verus! {

broadcast use vstd::std_specs::vec::group_vec_axioms;

pub const WASM_LOADER_FILE: &'static str = "wasm_file:";

/// Builds bytecode rule engines: it keeps the registered loader tags
/// and decides which one a rule body asks for.
#[derive(Debug)]
pub struct WasmRuntimeFactory {
    loader: Vec<String>,
}

impl WasmRuntimeFactory {
    /// The registered loader tags, in registration order.
    pub closed spec fn tags(&self) -> Seq<Seq<char>> {
        spec_tags_of(self.loader@)
    }

    /// A factory with the default file loader.
    pub fn new() -> (r: WasmRuntimeFactory)
        ensures
            r.tags() =~= seq![WASM_LOADER_FILE@],
    {
        let mut lrf = WasmRuntimeFactory { loader: Vec::new() };
        lrf.add_loader(WASM_LOADER_FILE);
        proof {
            assert(lrf.tags() =~= seq![WASM_LOADER_FILE@]);
        }
        lrf
    }

    /// Registers a loader tag; a tag already present stays where it
    /// is.
    #[verifier::loop_isolation(false)]
    pub fn add_loader(&mut self, tag: &str)
        ensures
            (exists|i: int| 0 <= i < old(self).tags().len() && old(self).tags()[i] == tag@)
                ==> final (self).tags() == old(self).tags(),
            !(exists|i: int| 0 <= i < old(self).tags().len() && old(self).tags()[i] == tag@)
                ==> final (self).tags() =~= old(self).tags().push(tag@),
    {
        let mut i: usize = 0;
        while i < self.loader.len()
            invariant
                i <= self.loader@.len(),
                forall|j: int| 0 <= j < i ==> self.tags()[j] != tag@,
            decreases self.loader@.len() - i,
        {
            if str_eq(self.loader[i].as_str(), tag) {
                proof {
                    assert(0 <= i < self.tags().len() && self.tags()[i as int] == tag@);
                }
                return ;
            }
            i = i + 1;
        }
        let ghost before = self.tags();
        self.loader.push(tag.to_owned());
        proof {
            assert(self.tags() =~= before.push(tag@));
        }
    }

    /// Drops every loader under the tag.
    #[verifier::loop_isolation(false)]
    pub fn remove_loader(&mut self, tag: &str)
        ensures
            forall|i: int| 0 <= i < final (self).tags().len() ==> final (self).tags()[i] != tag@,
    {
        let mut kept: Vec<String> = Vec::new();
        let mut old_tags: Vec<String> = Vec::new();
        core::mem::swap(&mut self.loader, &mut old_tags);
        let n = old_tags.len();
        let mut i: usize = 0;
        while i < n
            invariant
                i <= n,
                n == old_tags@.len(),
                forall|j: int| 0 <= j < kept@.len() ==> #[trigger] kept@[j]@ != tag@,
            decreases n - i,
        {
            if !str_eq(old_tags[i].as_str(), tag) {
                kept.push(old_tags[i].clone());
            }
            i = i + 1;
        }
        self.loader = kept;
    }

    /// Splits a bytecode rule text into its name and body: the header
    /// line must read `rule [name] [description] wasm [...]`.
    pub fn check_engine(buf: &str) -> (r: Result<(String, String), ParseError>) {
        check_header(buf, "wasm", "WASM")
    }

    /// The first registered tag the body starts with, for the caller
    /// to load by.
    #[verifier::loop_isolation(false)]
    pub fn select_loader(&self, body: &str) -> (r: Option<String>)
        ensures
            match r {
                Some(t) => spec_first_prefix(self.tags(), body@) == Some(t@),
                None => spec_first_prefix(self.tags(), body@) is None,
            },
    {
        let ghost tags = self.tags();
        let mut i: usize = 0;
        proof {
            assert(tags.skip(0) =~= tags);
        }
        while i < self.loader.len()
            invariant
                i <= self.loader@.len(),
                tags == self.tags(),
                spec_first_prefix(tags, body@) == spec_first_prefix(tags.skip(i as int), body@),
            decreases self.loader@.len() - i,
        {
            proof {
                assert(tags.skip(i as int)[0] == tags[i as int]);
                assert(tags.skip(i as int).drop_first() =~= tags.skip(i as int + 1));
            }
            if str_starts_with(body, self.loader[i].as_str()) {
                return Some(self.loader[i].clone());
            }
            i = i + 1;
        }
        proof {
            assert(tags.skip(self.loader@.len() as int) =~= Seq::<Seq<char>>::empty());
        }
        None
    }
}

} // verus!

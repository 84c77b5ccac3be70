//! The factory side of the scripted rule backend.
//!
//! A scripted rule text names an engine in its header and begins its
//! body with a loader tag.  What stands here is the decision work:
//! parsing the header, and picking the registered loader whose tag
//! the body starts with.  Loading the script and running the engine
//! is outside work that the caller performs with the tag and body
//! returned from here.
use crate::error::ParseError;
use crate::text::chars_of;
use crate::text::str_starts_with;
use crate::text::string_of_range;
use crate::value::str_eq;
use vstd::prelude::*;

verus! {

broadcast use vstd::std_specs::vec::group_vec_axioms;

pub const LUA_SCRIPT_TAG: &'static str = "lua_script:";

pub const LUA_FILE_TAG: &'static str = "lua_file:";

/// The first registered tag the body starts with.
pub open spec fn spec_first_prefix(tags: Seq<Seq<char>>, body: Seq<char>) -> Option<Seq<char>>
    decreases tags.len(),
{
    if tags.len() == 0 {
        None
    } else if body.len() >= tags[0].len() && body.subrange(0, tags[0].len() as int) == tags[0] {
        Some(tags[0])
    } else {
        spec_first_prefix(tags.drop_first(), body)
    }
}

pub open spec fn spec_tags_of(s: Seq<String>) -> Seq<Seq<char>> {
    Seq::new(s.len(), |i: int| s[i]@)
}

/// Builds scripted rule engines: it keeps the registered loader tags
/// and decides which one a rule body asks for.
#[derive(Debug)]
pub struct LuaRuntimeFactory {
    loader: Vec<String>,
}

impl LuaRuntimeFactory {
    /// The registered loader tags, in registration order.
    pub closed spec fn tags(&self) -> Seq<Seq<char>> {
        spec_tags_of(self.loader@)
    }

    /// A factory with the two default loaders: inline script text and
    /// script file.
    pub fn new() -> (r: LuaRuntimeFactory)
        ensures
            r.tags() =~= seq![LUA_SCRIPT_TAG@, LUA_FILE_TAG@],
    {
        let mut lrf = LuaRuntimeFactory { loader: Vec::new() };
        lrf.add_loader(LUA_SCRIPT_TAG);
        proof {
            reveal_strlit("lua_script:");
            reveal_strlit("lua_file:");
            assert(lrf.tags() =~= seq![LUA_SCRIPT_TAG@]);
        }
        proof {
            let t1 = lrf.tags();
            assert(LUA_SCRIPT_TAG@.len() == 11 && LUA_FILE_TAG@.len() == 9);
            assert forall|i: int| 0 <= i < t1.len() implies t1[i] != LUA_FILE_TAG@ by {
                assert(t1[i] == LUA_SCRIPT_TAG@);
            }
        }
        lrf.add_loader(LUA_FILE_TAG);
        proof {
            assert(lrf.tags() =~= seq![LUA_SCRIPT_TAG@, LUA_FILE_TAG@]);
        }
        lrf
    }

    /// Registers a loader tag; a tag already present stays where it
    /// is.
    #[verifier::loop_isolation(false)]
    pub fn add_loader(&mut self, tag: &str)
        ensures
            (exists|i: int| 0 <= i < old(self).tags().len() && old(self).tags()[i] == tag@)
                ==> final (self).tags() == old(self).tags(),
            !(exists|i: int| 0 <= i < old(self).tags().len() && old(self).tags()[i] == tag@)
                ==> final (self).tags() =~= old(self).tags().push(tag@),
    {
        let mut i: usize = 0;
        while i < self.loader.len()
            invariant
                i <= self.loader@.len(),
                forall|j: int| 0 <= j < i ==> self.tags()[j] != tag@,
            decreases self.loader@.len() - i,
        {
            if str_eq(self.loader[i].as_str(), tag) {
                proof {
                    assert(0 <= i < self.tags().len() && self.tags()[i as int] == tag@);
                }
                return ;
            }
            i = i + 1;
        }
        let ghost before = self.tags();
        self.loader.push(tag.to_owned());
        proof {
            assert(self.tags() =~= before.push(tag@));
        }
    }

    /// Drops every loader under the tag.
    #[verifier::loop_isolation(false)]
    pub fn remove_loader(&mut self, tag: &str)
        ensures
            forall|i: int| 0 <= i < final (self).tags().len() ==> final (self).tags()[i] != tag@,
    {
        let mut kept: Vec<String> = Vec::new();
        let mut old_tags: Vec<String> = Vec::new();
        core::mem::swap(&mut self.loader, &mut old_tags);
        let n = old_tags.len();
        let mut i: usize = 0;
        while i < n
            invariant
                i <= n,
                n == old_tags@.len(),
                forall|j: int| 0 <= j < kept@.len() ==> #[trigger] kept@[j]@ != tag@,
            decreases n - i,
        {
            if !str_eq(old_tags[i].as_str(), tag) {
                kept.push(old_tags[i].clone());
            }
            i = i + 1;
        }
        self.loader = kept;
    }

    /// Splits a scripted rule text into its name and body: the header
    /// line must read `rule [name] [description] lua [...]`.
    pub fn check_engine(buf: &str) -> (r: Result<(String, String), ParseError>) {
        check_header(buf, "lua", "LUA")
    }

    /// The first registered tag the body starts with, for the caller
    /// to load by.
    #[verifier::loop_isolation(false)]
    pub fn select_loader(&self, body: &str) -> (r: Option<String>)
        ensures
            match r {
                Some(t) => spec_first_prefix(self.tags(), body@) == Some(t@),
                None => spec_first_prefix(self.tags(), body@) is None,
            },
    {
        let ghost tags = self.tags();
        let mut i: usize = 0;
        proof {
            assert(tags.skip(0) =~= tags);
        }
        while i < self.loader.len()
            invariant
                i <= self.loader@.len(),
                tags == self.tags(),
                spec_first_prefix(tags, body@) == spec_first_prefix(tags.skip(i as int), body@),
            decreases self.loader@.len() - i,
        {
            proof {
                assert(tags.skip(i as int)[0] == tags[i as int]);
                assert(tags.skip(i as int).drop_first() =~= tags.skip(i as int + 1));
            }
            if str_starts_with(body, self.loader[i].as_str()) {
                return Some(self.loader[i].clone());
            }
            i = i + 1;
        }
        proof {
            assert(tags.skip(self.loader@.len() as int) =~= Seq::<Seq<char>>::empty());
        }
        None
    }
}

/// Parses a scripted rule header: whitespace, then one line reading
/// `rule [name] [description] [engine] [...]`, the engine word given
/// in its lower-case and upper-case spellings.  Returns the
/// description word and the body after the line, both trimmed as the
/// engines expect.
#[verifier::loop_isolation(false)]
pub fn check_header(buf: &str, engine_lo: &str, engine_up: &str) -> (r: Result<
    (String, String),
    ParseError,
>) {
    let el = chars_of(engine_lo);
    let eu = chars_of(engine_up);
    let chars = chars_of(buf);
    let n = chars.len();
    let mut s: usize = 0;
    while s < n && (chars[s] == ' ' || chars[s] == '\n' || chars[s] == '\r' || chars[s] == '\t')
        invariant
            s <= n,
            n == chars@.len(),
        decreases n - s,
    {
        s = s + 1;
    }
    let nl = match crate::lex::scan_char(&chars, s, '\n') {
        None => {
            return Err(ParseError::RuleFormat);
        },
        Some(j) => j,
    };
    // the header words, split on single spaces, empties kept
    let mut words: Vec<(usize, usize)> = Vec::new();
    let mut ws: usize = s;
    let mut k: usize = s;
    while k < nl
        invariant
            s <= ws <= k <= nl < chars@.len(),
            forall|q: int| 0 <= q < words@.len() ==> (#[trigger] words@[q]).0 <= words@[q].1 <= nl,
        decreases nl - k,
    {
        if chars[k] == ' ' {
            words.push((ws, k));
            ws = k + 1;
        }
        k = k + 1;
    }
    words.push((ws, nl));
    if words.len() < 4 {
        return Err(ParseError::RuleFormat);
    }
    let rule_lo = chars_of("rule");
    let rule_up = chars_of("RULE");
    if !word_ci(&chars, words[0].0, words[0].1, &rule_lo, &rule_up) {
        return Err(ParseError::RuleTag);
    }
    if !word_ci(&chars, words[3].0, words[3].1, &el, &eu) {
        return Err(ParseError::RuleEngine);
    }
    let name = string_of_range(&chars, words[2].0, words[2].1);
    let mut b: usize = nl + 1;
    while b < n && (chars[b] == ' ' || chars[b] == '\n' || chars[b] == '\r' || chars[b] == '\t')
        invariant
            nl < b <= n,
            n == chars@.len(),
        decreases n - b,
    {
        b = b + 1;
    }
    let body = string_of_range(&chars, b, n);
    Ok((name, body))
}

/// Whether `chars[a .. b]` spells the given word, each character in
/// its lower or upper case.
#[verifier::loop_isolation(false)]
fn word_ci(chars: &Vec<char>, a: usize, b: usize, lo: &Vec<char>, up: &Vec<char>) -> (r: bool)
    requires
        a <= b <= chars@.len(),
{
    if b - a != lo.len() || lo.len() != up.len() {
        return false;
    }
    let mut k: usize = 0;
    while k < lo.len()
        invariant
            k <= lo@.len(),
            b - a == lo@.len() == up@.len(),
            a <= b <= chars@.len(),
        decreases lo.len() - k,
    {
        let c = chars[a + k];
        if !(c == lo[k] || c == up[k]) {
            return false;
        }
        k = k + 1;
    }
    true
}

} // verus!

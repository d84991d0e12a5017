//! The script registry: an immutable lookup from script name to definition,
//! built by merging sources; on a name collision the later source wins.

use vstd::prelude::*;

verus! {

/// One script: its dependency names, its optional command template, the
/// visibility of its output streams, and whether its command is memoized.
pub struct ScriptDef {
    pub uses: Vec<String>,
    pub run: Option<String>,
    pub show_stdout: bool,
    pub show_stderr: bool,
    pub cacheable: bool,
}

/// The mathematical image of a script definition.
#[verifier::ext_equal]
pub struct ScriptDefView {
    pub uses: Seq<Seq<char>>,
    pub run: Option<Seq<char>>,
    pub show_stdout: bool,
    pub show_stderr: bool,
    pub cacheable: bool,
}

impl View for ScriptDef {
    type V = ScriptDefView;

    open spec fn view(&self) -> ScriptDefView {
        ScriptDefView {
            uses: self.uses@.map_values(|s: String| s@),
            run: match self.run {
                Option::Some(s) => Option::Some(s@),
                Option::None => Option::None,
            },
            show_stdout: self.show_stdout,
            show_stderr: self.show_stderr,
            cacheable: self.cacheable,
        }
    }
}

/// One registry entry: a name bound to a definition.
pub struct RegistryEntry {
    pub name: String,
    pub def: ScriptDef,
}

/// The registry, viewed as a mapping in which the last entry for a name wins.
pub struct Registry {
    pub entries: Vec<RegistryEntry>,
}

/// The mapping that a sequence of entries denotes: each entry overrides
/// whatever an earlier one bound to the same name.
pub open spec fn entries_map(s: Seq<RegistryEntry>) -> Map<Seq<char>, ScriptDefView>
    decreases s.len(),
{
    if s.len() == 0 {
        Map::empty()
    } else {
        entries_map(s.drop_last()).insert(s.last().name@, s.last().def@)
    }
}

impl View for Registry {
    type V = Map<Seq<char>, ScriptDefView>;

    open spec fn view(&self) -> Map<Seq<char>, ScriptDefView> {
        entries_map(self.entries@)
    }
}

proof fn lemma_entries_map_found(s: Seq<RegistryEntry>, k: Seq<char>, j: int)
    requires
        0 <= j < s.len(),
        s[j].name@ == k,
        forall|l: int| j < l < s.len() ==> s[l].name@ != k,
    ensures
        entries_map(s).contains_key(k),
        entries_map(s)[k] == s[j].def@,
    decreases s.len(),
{
    if j < s.len() - 1 {
        lemma_entries_map_found(s.drop_last(), k, j);
    }
}

proof fn lemma_entries_map_absent(s: Seq<RegistryEntry>, k: Seq<char>)
    requires
        forall|l: int| 0 <= l < s.len() ==> s[l].name@ != k,
    ensures
        !entries_map(s).contains_key(k),
    decreases s.len(),
{
    if s.len() > 0 {
        lemma_entries_map_absent(s.drop_last(), k);
    }
}

proof fn lemma_entries_map_append(a: Seq<RegistryEntry>, b: Seq<RegistryEntry>)
    ensures
        entries_map(a + b) == entries_map(a).union_prefer_right(entries_map(b)),
    decreases b.len(),
{
    if b.len() == 0 {
        assert(a + b =~= a);
        assert(entries_map(a).union_prefer_right(Map::empty()) =~= entries_map(a));
    } else {
        lemma_entries_map_append(a, b.drop_last());
        assert((a + b).drop_last() =~= a + b.drop_last());
        assert((a + b).last() == b.last());
        assert(entries_map(a).union_prefer_right(entries_map(b)) =~= entries_map(
            a,
        ).union_prefer_right(entries_map(b.drop_last())).insert(b.last().name@, b.last().def@));
    }
}

impl Registry {
    /// An empty registry.
    pub fn new() -> (r: Registry)
        ensures
            r@ == Map::<Seq<char>, ScriptDefView>::empty(),
    {
        Registry { entries: Vec::new() }
    }

    /// Bind a name to a definition; a later binding for the same name wins.
    pub fn insert(&mut self, name: String, def: ScriptDef)
        ensures
            final(self)@ == old(self)@.insert(name@, def@),
    {
        let ghost before = self.entries@;
        self.entries.push(RegistryEntry { name, def });
        proof {
            assert(self.entries@.drop_last() =~= before);
        }
    }

    /// Look a name up: the definition of the last entry with that name.
    pub fn lookup(&self, name: &String) -> (r: Option<&ScriptDef>)
        ensures
            match r {
                Option::Some(d) => self@.contains_key(name@) && d@ == self@[name@],
                Option::None => !self@.contains_key(name@),
            },
    {
        let n = self.entries.len();
        let mut i: usize = n;
        while i > 0
            invariant
                i <= n,
                n == self.entries@.len(),
                forall|l: int| i <= l < n ==> self.entries@[l].name@ != name@,
            decreases i,
    {
            i = i - 1;
            if self.entries[i].name == *name {
                proof {
                    lemma_entries_map_found(self.entries@, name@, i as int);
                }
                return Option::Some(&self.entries[i].def);
            }
        }
        proof {
            lemma_entries_map_absent(self.entries@, name@);
        }
        Option::None
    }

    /// Merge another registry into this one; on a collision the other
    /// registry's binding wins.
    pub fn extend(&mut self, other: Registry)
        ensures
            final(self)@ == old(self)@.union_prefer_right(other@),
    {
        let ghost base = self.entries@;
        let ghost add = other.entries@;
        let mut rest = other.entries;
        self.entries.append(&mut rest);
        proof {
            lemma_entries_map_append(base, add);
        }
    }
}

/// A name defined by both a manifest-derived source and an explicit
/// configuration source resolves, after the merge, to the configuration
/// source's definition.
pub proof fn lemma_config_source_wins(
    manifest: Map<Seq<char>, ScriptDefView>,
    config: Map<Seq<char>, ScriptDefView>,
    name: Seq<char>,
)
    requires
        config.contains_key(name),
    ensures
        manifest.union_prefer_right(config).contains_key(name),
        manifest.union_prefer_right(config)[name] == config[name],
{
}

} // verus!

//! Loaded sections and crates, and the registry that maps a symbol's
//! demangled name to the section that defines it.
use vstd::prelude::*;
use crate::text::same_text;

verus! {

/// Where a loaded section lives, which decides its page permissions.
#[derive(Clone, Copy, Debug, PartialEq, Eq, Structural)]
pub enum SectionClass {
    /// Executable and read-only.
    Text,
    /// Read-only, not executable.
    Rodata,
    /// Writable, not executable; `.bss` sections too.
    Data,
}

/// A section placed in memory.
#[derive(Debug)]
pub struct LoadedSection {
    /// The demangled name without its hash.
    pub canonical_name: String,
    /// The compiler's hash, where the name had one.
    pub hash_suffix: Option<String>,
    pub class: SectionClass,
    /// The address at which the section starts.
    pub virtual_address: u64,
    pub size_bytes: u64,
    /// Whether the object's symbol table makes the section visible outside.
    pub global: bool,
    /// The index of the section header the section came from.
    pub shndx: usize,
}

/// A loaded section, with its strings as character sequences.
pub struct LoadedSectionView {
    pub canonical_name: Seq<char>,
    pub hash_suffix: Option<Seq<char>>,
    pub class: SectionClass,
    pub virtual_address: u64,
    pub size_bytes: u64,
    pub global: bool,
    pub shndx: usize,
}

pub open spec fn opt_str_view(s: Option<String>) -> Option<Seq<char>> {
    match s {
        Some(t) => Some(t@),
        None => None,
    }
}

impl View for LoadedSection {
    type V = LoadedSectionView;

    open spec fn view(&self) -> LoadedSectionView {
        LoadedSectionView {
            canonical_name: self.canonical_name@,
            hash_suffix: opt_str_view(self.hash_suffix),
            class: self.class,
            virtual_address: self.virtual_address,
            size_bytes: self.size_bytes,
            global: self.global,
            shndx: self.shndx,
        }
    }
}

pub fn copy_opt_string(s: &Option<String>) -> (r: Option<String>)
    ensures
        opt_str_view(r) == opt_str_view(*s),
{
    match s {
        Some(t) => Some(t.clone()),
        None => None,
    }
}

impl LoadedSection {
    /// A copy of this record.
    pub fn copy(&self) -> (r: LoadedSection)
        ensures
            r@ == self@,
    {
        LoadedSection {
            canonical_name: self.canonical_name.clone(),
            hash_suffix: copy_opt_string(&self.hash_suffix),
            class: self.class,
            virtual_address: self.virtual_address,
            size_bytes: self.size_bytes,
            global: self.global,
            shndx: self.shndx,
        }
    }
}

/// The views of a sequence of sections.
pub open spec fn views(s: Seq<LoadedSection>) -> Seq<LoadedSectionView> {
    s.map_values(|x: LoadedSection| x@)
}

/// The bytes of one region of a loaded crate, and where they are mapped.
#[derive(Debug)]
pub struct RegionImage {
    pub class: SectionClass,
    pub base: u64,
    pub bytes: Vec<u8>,
}

/// A loaded module: its name, its sections, and the regions that hold
/// them (text, rodata, data, each only where it has content).
#[derive(Debug)]
pub struct LoadedCrate {
    pub crate_name: String,
    pub sections: Vec<LoadedSection>,
    pub regions: Vec<RegionImage>,
}

/// The map that a sequence of insertions builds, the later winning.
pub open spec fn entries_map(s: Seq<LoadedSectionView>) -> Map<Seq<char>, LoadedSectionView>
    decreases s.len(),
{
    if s.len() == 0 {
        Map::empty()
    } else {
        entries_map(s.drop_last()).insert(s.last().canonical_name, s.last())
    }
}

/// The map after publishing the global sections of `secs` in order.
pub open spec fn publish_all(
    m: Map<Seq<char>, LoadedSectionView>,
    secs: Seq<LoadedSectionView>,
) -> Map<Seq<char>, LoadedSectionView>
    decreases secs.len(),
{
    if secs.len() == 0 {
        m
    } else {
        let prev = publish_all(m, secs.drop_last());
        if secs.last().global {
            prev.insert(secs.last().canonical_name, secs.last())
        } else {
            prev
        }
    }
}

/// The kernel's symbol registry: demangled name to defining section.
pub struct SymbolRegistry {
    entries: Vec<LoadedSection>,
}

impl View for SymbolRegistry {
    type V = Map<Seq<char>, LoadedSectionView>;

    closed spec fn view(&self) -> Map<Seq<char>, LoadedSectionView> {
        entries_map(views(self.entries@))
    }
}

proof fn lemma_entries_map_skip(s: Seq<LoadedSectionView>, j: int, name: Seq<char>)
    requires
        0 <= j <= s.len(),
        forall|k: int| j <= k < s.len() ==> s[k].canonical_name != name,
    ensures
        entries_map(s).contains_key(name) == entries_map(s.take(j)).contains_key(name),
        entries_map(s).contains_key(name) ==> entries_map(s)[name] == entries_map(s.take(j))[name],
    decreases s.len() - j,
{
    if j < s.len() {
        lemma_entries_map_skip(s.drop_last(), j, name);
        assert(s.drop_last().take(j) =~= s.take(j));
    } else {
        assert(s.take(j) =~= s);
    }
}

impl SymbolRegistry {
    /// An empty registry.
    pub fn new() -> (r: SymbolRegistry)
        ensures
            r@ == Map::<Seq<char>, LoadedSectionView>::empty(),
    {
        SymbolRegistry { entries: Vec::new() }
    }

    /// The section registered under `name`, if any.
    pub fn get_symbol(&self, name: &str) -> (r: Option<LoadedSection>)
        ensures
            r is Some <==> self@.contains_key(name@),
            r is Some ==> r.unwrap()@ == self@[name@],
    {
        let ghost s = views(self.entries@);
        let mut j: usize = self.entries.len();
        while j > 0
            invariant
                j <= self.entries@.len(),
                s == views(self.entries@),
                forall|k: int| j <= k < s.len() ==> s[k].canonical_name != name@,
            decreases j,
        {
            let e = &self.entries[j - 1];
            if same_text(e.canonical_name.as_str(), name) {
                proof {
                    lemma_entries_map_skip(s, j as int, name@);
                    assert(s.take(j as int).drop_last() =~= s.take(j - 1));
                    assert(s.take(j as int).last() == s[j - 1]);
                }
                return Some(e.copy());
            }
            j = j - 1;
        }
        proof {
            lemma_entries_map_skip(s, 0, name@);
            assert(s.take(0) =~= Seq::<LoadedSectionView>::empty());
        }
        None
    }

    /// Registers `sec` under its canonical name; a later insertion
    /// replaces an earlier one under the same name.
    pub fn insert(&mut self, sec: LoadedSection)
        ensures
            final(self)@ == old(self)@.insert(sec@.canonical_name, sec@),
    {
        self.entries.push(sec);
        proof {
            let s = views(final(self).entries@);
            assert(s.drop_last() =~= views(old(self).entries@));
        }
    }

    /// Publishes every global section of `c` under its canonical name, in
    /// the crate's order.
    pub fn publish(&mut self, c: &LoadedCrate)
        ensures
            final(self)@ == publish_all(old(self)@, views(c.sections@)),
    {
        let ghost secs = views(c.sections@);
        let mut i: usize = 0;
        while i < c.sections.len()
            invariant
                i <= c.sections@.len(),
                secs == views(c.sections@),
                self@ == publish_all(old(self)@, secs.take(i as int)),
            decreases c.sections@.len() - i,
        {
            assert(secs.take(i + 1).drop_last() =~= secs.take(i as int));
            if c.sections[i].global {
                self.insert(c.sections[i].copy());
            }
            i = i + 1;
        }
        assert(secs.take(i as int) =~= secs);
    }
}

/// The registry maps each published name to the last global section of
/// the crate with that name; names that the crate does not publish keep
/// what they had.
pub proof fn lemma_publish_resolves(
    m: Map<Seq<char>, LoadedSectionView>,
    secs: Seq<LoadedSectionView>,
    i: int,
)
    requires
        0 <= i < secs.len(),
        secs[i].global,
        forall|j: int| i < j < secs.len() && secs[j].global ==> secs[j].canonical_name
            != secs[i].canonical_name,
    ensures
        publish_all(m, secs).contains_key(secs[i].canonical_name),
        publish_all(m, secs)[secs[i].canonical_name] == secs[i],
    decreases secs.len(),
{
    if i < secs.len() - 1 {
        lemma_publish_resolves(m, secs.drop_last(), i);
    }
}

} // verus!

//! Project assembly inputs: the registry of source providers by file type, the sources handed to
//! the assembler, and the build settings a package records.
use vstd::prelude::*;

verus! {

// SOURCE PROVIDERS
// ================================================================================================

/// A provider of project sources for one file type.
pub trait ProjectSourceProvider {
    /// The file type (extension) the provider handles. Every provider checked here gives its own
    /// definition; one compiled without a check keeps this unspecified value.
    open spec fn spec_file_type(&self) -> Seq<char> {
        arbitrary()
    }

    /// Returns the file type (extension) the provider handles.
    fn file_type(&self) -> (r: &'static str)
        ensures
            r@ == self.spec_file_type(),
    ;
}

/// The provider of Miden assembly sources, for the `masm` file type.
#[derive(Debug, Clone, Copy)]
pub struct MasmSourceProvider;

impl ProjectSourceProvider for MasmSourceProvider {
    open spec fn spec_file_type(&self) -> Seq<char> {
        masm_file_type()
    }

    fn file_type(&self) -> (r: &'static str) {
        "masm"
    }
}

/// The file type of Miden assembly sources.
pub open spec fn masm_file_type() -> Seq<char> {
    "masm"@
}

/// A registered provider: the built-in Miden assembly provider, or one supplied by the user.
#[derive(Debug, Clone, Copy)]
pub enum RegisteredProvider<P> {
    /// The built-in provider of Miden assembly sources.
    Masm(MasmSourceProvider),
    /// A provider supplied by the user.
    Custom(P),
}

impl<P: ProjectSourceProvider> ProjectSourceProvider for RegisteredProvider<P> {
    open spec fn spec_file_type(&self) -> Seq<char> {
        match self {
            RegisteredProvider::Masm(m) => m.spec_file_type(),
            RegisteredProvider::Custom(p) => p.spec_file_type(),
        }
    }

    fn file_type(&self) -> (r: &'static str) {
        match self {
            RegisteredProvider::Masm(m) => m.file_type(),
            RegisteredProvider::Custom(p) => p.file_type(),
        }
    }
}

/// Returns true when both strings hold the same characters.
fn same_str(a: &str, b: &str) -> (r: bool)
    ensures
        r == (a@ == b@),
{
    a.to_owned() == b.to_owned()
}

/// The provider keyed by `file_type` among `entries`: the last one with that key.
pub open spec fn last_keyed<P>(entries: Seq<(Seq<char>, P)>, file_type: Seq<char>) -> Option<RegisteredProvider<P>>
    decreases entries.len(),
{
    if entries.len() == 0 {
        None
    } else if entries.last().0 == file_type {
        Some(RegisteredProvider::Custom(entries.last().1))
    } else {
        last_keyed(entries.drop_last(), file_type)
    }
}

/// The provider a registry built from `entries` holds for `file_type`: the last entry with that
/// key, or for `masm` without such an entry the Miden assembly provider.
pub open spec fn registry_spec<P>(entries: Seq<(Seq<char>, P)>, file_type: Seq<char>) -> Option<RegisteredProvider<P>> {
    match last_keyed(entries, file_type) {
        Some(p) => Some(p),
        None => if file_type == masm_file_type() {
            Some(RegisteredProvider::Masm(MasmSourceProvider))
        } else {
            None
        },
    }
}

/// The entries with each file type taken as its characters.
pub open spec fn str_keyed<P>(entries: Seq<(&'static str, P)>) -> Seq<(Seq<char>, P)> {
    entries.map_values(|e: (&'static str, P)| (e.0@, e.1))
}

/// The providers, each keyed by the file type it reports.
pub open spec fn type_keyed<P: ProjectSourceProvider>(providers: Seq<P>) -> Seq<(Seq<char>, P)> {
    providers.map_values(|p: P| (p.spec_file_type(), p))
}

/// The registry of source providers, one per file type.
pub struct SourceProviderRegistry<P> {
    /// The registered providers, each with its file type; no file type occurs twice.
    registered: Vec<(&'static str, RegisteredProvider<P>)>,
}

impl<P: ProjectSourceProvider> SourceProviderRegistry<P> {
    /// The provider registered for `file_type`, if any.
    pub closed spec fn provider_for(&self, file_type: Seq<char>) -> Option<RegisteredProvider<P>> {
        if exists|i: int| 0 <= i < self.registered@.len() && self.registered@[i].0@ == file_type {
            Some(self.registered@[choose|i: int| 0 <= i < self.registered@.len() && self.registered@[i].0@ == file_type].1)
        } else {
            None
        }
    }

    /// The invariant of the registry: no file type occurs twice.
    pub closed spec fn wf(&self) -> bool {
        forall|i: int, j: int| 0 <= i < j < self.registered@.len() ==> (#[trigger] self.registered@[i]).0@ != (#[trigger] self.registered@[j]).0@
    }

    proof fn lemma_provider_at(&self, i: int)
        requires
            self.wf(),
            0 <= i < self.registered@.len(),
        ensures
            self.provider_for(self.registered@[i].0@) == Some(self.registered@[i].1),
    {
        let k = self.registered@[i].0@;
        assert(0 <= i < self.registered@.len() && self.registered@[i].0@ == k);
        let c = choose|c: int| 0 <= c < self.registered@.len() && self.registered@[c].0@ == k;
        assert(0 <= c < self.registered@.len() && self.registered@[c].0@ == k);
        if c < i {
            assert(self.registered@[c].0@ != self.registered@[i].0@);
        } else if c > i {
            assert(self.registered@[i].0@ != self.registered@[c].0@);
        }
    }

    /// Registers `provider` under `file_type`, replacing the provider registered under it.
    fn insert(&mut self, file_type: &'static str, provider: RegisteredProvider<P>)
        requires
            old(self).wf(),
        ensures
            final(self).wf(),
            final(self).provider_for(file_type@) == Some(provider),
            forall|t: Seq<char>| t != file_type@ ==> #[trigger] final(self).provider_for(t) == old(self).provider_for(t),
    {
        let ghost before = self.registered@;
        let n = self.registered.len();
        let mut i: usize = 0;
        while i < n
            invariant
                n == self.registered@.len(),
                self.registered@ == before,
                before == old(self).registered@,
                self.wf(),
                old(self).wf(),
                i <= n,
                forall|j: int| 0 <= j < i ==> self.registered@[j].0@ != file_type@,
            decreases n - i,
        {
            if same_str(self.registered[i].0, file_type) {
                self.registered.set(i, (file_type, provider));
                proof {
                    let after = self.registered@;
                    assert forall|a: int, b: int| 0 <= a < b < after.len() implies (#[trigger] after[a]).0@ != (#[trigger] after[b]).0@ by {
                        if a != i && b != i {
                            assert(after[a] == before[a] && after[b] == before[b]);
                        } else if a == i {
                            assert(after[b] == before[b]);
                            assert(before[a].0@ != before[b].0@);
                        } else {
                            assert(after[a] == before[a]);
                            assert(before[a].0@ != before[b].0@);
                        }
                    }
                    self.lemma_provider_at(i as int);
                    assert forall|t: Seq<char>| t != file_type@ implies #[trigger] self.provider_for(t) == old(self).provider_for(t) by {
                        if exists|a: int| 0 <= a < before.len() && before[a].0@ == t {
                            let a = choose|a: int| 0 <= a < before.len() && before[a].0@ == t;
                            assert(a != i);
                            assert(after[a] == before[a]);
                            self.lemma_provider_at(a);
                            old(self).lemma_provider_at(a);
                        } else {
                            assert forall|a: int| 0 <= a < after.len() implies after[a].0@ != t by {
                                if a != i {
                                    assert(after[a] == before[a]);
                                }
                            }
                        }
                    }
                }
                return;
            }
            i += 1;
        }
        self.registered.push((file_type, provider));
        proof {
            let after = self.registered@;
            assert forall|a: int, b: int| 0 <= a < b < after.len() implies (#[trigger] after[a]).0@ != (#[trigger] after[b]).0@ by {
                if b < n {
                    assert(after[a] == before[a] && after[b] == before[b]);
                } else {
                    assert(after[a] == before[a]);
                }
            }
            self.lemma_provider_at(n as int);
            assert forall|t: Seq<char>| t != file_type@ implies #[trigger] self.provider_for(t) == old(self).provider_for(t) by {
                if exists|a: int| 0 <= a < before.len() && before[a].0@ == t {
                    let a = choose|a: int| 0 <= a < before.len() && before[a].0@ == t;
                    assert(after[a] == before[a]);
                    self.lemma_provider_at(a);
                    old(self).lemma_provider_at(a);
                } else {
                    assert forall|a: int| 0 <= a < after.len() implies after[a].0@ != t by {
                        if a < n {
                            assert(after[a] == before[a]);
                        }
                    }
                }
            }
        }
    }

    /// Returns true when a provider is registered for `file_type`.
    fn contains(&self, file_type: &str) -> (r: bool)
        requires
            self.wf(),
        ensures
            r == (self.provider_for(file_type@) is Some),
    {
        let n = self.registered.len();
        let mut i: usize = 0;
        while i < n
            invariant
                n == self.registered@.len(),
                self.wf(),
                i <= n,
                forall|j: int| 0 <= j < i ==> self.registered@[j].0@ != file_type@,
            decreases n - i,
        {
            if same_str(self.registered[i].0, file_type) {
                proof {
                    assert(self.registered@[i as int].0@ == file_type@);
                }
                return true;
            }
            i += 1;
        }
        false
    }

    /// Creates a registry of the providers keyed by their file types, a later provider replacing
    /// an earlier one of the same type; the Miden assembly provider is registered for `masm`
    /// unless one of the providers has that type.
    pub fn from_keyed(entries: Vec<(&'static str, P)>) -> (r: Self)
        ensures
            r.wf(),
            forall|t: Seq<char>| #[trigger] r.provider_for(t) == registry_spec(str_keyed(entries@), t),
    {
        let mut this = SourceProviderRegistry { registered: Vec::new() };
        let ghost src = entries@;
        let ghost all = str_keyed(entries@);
        let mut rest = entries;
        let ghost mut k: int = 0;
        proof {
            assert(rest@ =~= src.skip(0));
        }
        while rest.len() > 0
            invariant
                this.wf(),
                0 <= k <= all.len(),
                all == str_keyed(src),
                rest@ == src.skip(k),
                forall|t: Seq<char>| #[trigger] this.provider_for(t) == last_keyed(all.take(k), t),
            decreases rest@.len(),
        {
            let (file_type, provider) = rest.remove(0);
            proof {
                assert((file_type, provider) == src[k]);
                assert(all[k] == (file_type@, provider));
                assert(all.take(k + 1).drop_last() =~= all.take(k));
                assert(all.take(k + 1).last() == all[k]);
            }
            this.insert(file_type, RegisteredProvider::Custom(provider));
            proof {
                k = k + 1;
                assert(rest@ =~= src.skip(k));
            }
        }
        proof {
            assert(all.take(k) =~= all);
        }
        let masm = MasmSourceProvider;
        if !this.contains("masm") {
            this.insert("masm", RegisteredProvider::Masm(masm));
        }
        this
    }

    /// Creates a registry of the providers, each under the file type it reports, a later provider
    /// replacing an earlier one of the same type; the Miden assembly provider is registered for
    /// `masm` unless one of the providers reports that type.
    pub fn new(providers: Vec<P>) -> (r: Self)
        ensures
            r.wf(),
            forall|t: Seq<char>| #[trigger] r.provider_for(t) == registry_spec(type_keyed(providers@), t),
    {
        let mut entries: Vec<(&'static str, P)> = Vec::new();
        let ghost all = providers@;
        let mut rest = providers;
        let ghost mut k: int = 0;
        proof {
            assert(rest@ =~= all.skip(0));
        }
        while rest.len() > 0
            invariant
                0 <= k <= all.len(),
                rest@ == all.skip(k),
                str_keyed(entries@) == type_keyed(all.take(k)),
            decreases rest@.len(),
        {
            let provider = rest.remove(0);
            proof {
                assert(provider == all[k]);
            }
            let file_type = provider.file_type();
            let ghost before = entries@;
            entries.push((file_type, provider));
            proof {
                assert(all.take(k + 1) =~= all.take(k).push(all[k]));
                assert(str_keyed(entries@) =~= str_keyed(before).push((file_type@, provider)));
                assert(type_keyed(all.take(k + 1)) =~= type_keyed(all.take(k)).push((all[k].spec_file_type(), all[k])));
                assert(str_keyed(entries@) =~= type_keyed(all.take(k + 1)));
                k = k + 1;
                assert(rest@ =~= all.skip(k));
            }
        }
        proof {
            assert(all.take(k) =~= all);
        }
        Self::from_keyed(entries)
    }

    /// Registers `provider` under the file type it reports, replacing the provider registered for
    /// that type; the other registrations stay. Returns the registry.
    pub fn with_source_provider(&mut self, provider: P) -> (r: &mut Self)
        requires
            old(self).wf(),
        ensures
            r.wf(),
            r.provider_for(provider.spec_file_type()) == Some(RegisteredProvider::Custom(provider)),
            forall|u: Seq<char>| u != provider.spec_file_type() ==> #[trigger] r.provider_for(u) == old(self).provider_for(u),
            *final(self) == *final(r),
    {
        let file_type = provider.file_type();
        self.insert(file_type, RegisteredProvider::Custom(provider));
        self
    }

    /// Returns the provider registered for `file_type`, if any.
    pub fn get_provider(&self, file_type: &str) -> (r: Option<&RegisteredProvider<P>>)
        requires
            self.wf(),
        ensures
            match (r, self.provider_for(file_type@)) {
                (Some(p), Some(q)) => *p == q,
                (None, None) => true,
                _ => false,
            },
    {
        let n = self.registered.len();
        let mut i: usize = 0;
        while i < n
            invariant
                n == self.registered@.len(),
                self.wf(),
                i <= n,
                forall|j: int| 0 <= j < i ==> self.registered@[j].0@ != file_type@,
            decreases n - i,
        {
            if same_str(self.registered[i].0, file_type) {
                proof {
                    self.lemma_provider_at(i as int);
                }
                return Some(&self.registered[i].1);
            }
            i += 1;
        }
        None
    }
}

// PROJECT SOURCES
// ================================================================================================

/// The modules of a target handed to the assembler: the root module and its support modules.
#[derive(Debug)]
pub struct ProjectSourceInputs<M> {
    /// The root module of the target.
    pub root: Box<M>,
    /// The support modules of the target.
    pub support: Vec<Box<M>>,
}

/// A source file as it was read: its path and its content.
#[derive(Debug, Clone)]
pub struct SourceFileProvenance {
    /// The path the file was read from.
    pub path: String,
    /// The content of the file.
    pub content: String,
}

/// The source files a target was assembled from: the root file and the support files.
#[derive(Debug, Clone)]
pub struct ProjectSourceProvenanceInputs {
    /// The file of the root module.
    pub root: SourceFileProvenance,
    /// The files of the support modules.
    pub support: Vec<SourceFileProvenance>,
}

// BUILD SETTINGS
// ================================================================================================

/// The settings of a package build that decide its debug information.
#[derive(Debug, Clone, Copy, PartialEq, Eq, Structural)]
pub struct PackageBuildSettings {
    /// Whether debug information is emitted.
    pub emit_debug_info: bool,
    /// Whether source paths are trimmed.
    pub trim_paths: bool,
}

/// The settings of builds made before profiles existed: debug information, untrimmed paths.
pub open spec fn legacy_settings() -> PackageBuildSettings {
    PackageBuildSettings { emit_debug_info: true, trim_paths: false }
}

impl PackageBuildSettings {
    /// The settings of builds made before profiles existed.
    pub fn legacy() -> (r: Self)
        ensures
            r == legacy_settings(),
    {
        PackageBuildSettings { emit_debug_info: true, trim_paths: false }
    }

    /// The settings a profile asks for: whether it emits debug information and trims paths.
    pub fn from_profile(should_emit_debug_info: bool, should_trim_paths: bool) -> (r: Self)
        ensures
            r == (PackageBuildSettings { emit_debug_info: should_emit_debug_info, trim_paths: should_trim_paths }),
    {
        PackageBuildSettings { emit_debug_info: should_emit_debug_info, trim_paths: should_trim_paths }
    }

    /// Returns true when these are the legacy settings.
    pub fn is_legacy(&self) -> (r: bool)
        ensures
            r == (*self == legacy_settings()),
    {
        self.emit_debug_info && !self.trim_paths
    }
}

} // verus!

use vstd::prelude::*;

use crate::assoc::assoc_map;
use crate::assoc::lemma_assoc_absent;
use crate::assoc::lemma_assoc_contains;
use crate::assoc::lemma_assoc_index;
use crate::assoc::lemma_assoc_push;
use crate::assoc::lemma_assoc_remove;
use crate::assoc::unique_keys;
use crate::context::CtxView;
use crate::context::RenderContext;
use crate::engine::compile_check;
use crate::engine::render_outcome;
use crate::engine::render_source;
use crate::engine::template_compiles;
use crate::errors::ServiceError;

verus! {

/// The two operating modes of the template store.
#[derive(Clone, Copy, Debug, PartialEq, Eq, Structural)]
pub enum Mode {
    /// Recompile the requested template from its current source before every
    /// render, so edits are visible without a restart.
    DevReload,
    /// Compile every template once at startup and never reload.
    ProdCached,
}

/// The synchronization a shared store needs in each mode.
#[derive(Clone, Copy, Debug, PartialEq, Eq, Structural)]
pub enum GuardPolicy {
    /// At most one render may be inside the invalidate-and-recompile pair for
    /// the same store at a time: wrap each rendering call in one
    /// mutual-exclusion critical section.
    Serialize,
    /// The store is never mutated after startup; concurrent readers need no
    /// lock at all.
    LockFree,
}

impl Mode {
    /// DevReload renders mutate the shared cache and must be serialized;
    /// ProdCached renders only read a frozen cache and may run in parallel.
    pub fn guard_policy(&self) -> (r: GuardPolicy)
        ensures
            *self == Mode::DevReload ==> r == GuardPolicy::Serialize,
            *self == Mode::ProdCached ==> r == GuardPolicy::LockFree,
    {
        match self {
            Mode::DevReload => GuardPolicy::Serialize,
            Mode::ProdCached => GuardPolicy::LockFree,
        }
    }
}

/// Mathematical form of a template source.
pub ghost enum SourceView {
    FileBacked { directory: Seq<char>, relative_path: Seq<char> },
    Embedded { text: Seq<char> },
}

/// The text of an embedded source.
pub open spec fn embedded_text(s: SourceView) -> Seq<char> {
    match s {
        SourceView::Embedded { text } => text,
        SourceView::FileBacked { .. } => Seq::empty(),
    }
}

/// Where a template's text comes from: a file under a directory, re-read on
/// every development render, or a string fixed at build time for production.
#[derive(Debug)]
pub enum TemplateSource {
    FileBacked { directory: String, relative_path: String },
    Embedded { text: String },
}

impl View for TemplateSource {
    type V = SourceView;

    open spec fn view(&self) -> SourceView {
        match self {
            TemplateSource::FileBacked { directory, relative_path } => SourceView::FileBacked {
                directory: directory@,
                relative_path: relative_path@,
            },
            TemplateSource::Embedded { text } => SourceView::Embedded { text: text@ },
        }
    }
}

impl Clone for TemplateSource {
    fn clone(&self) -> (r: Self)
        ensures
            r@ == self@,
    {
        match self {
            TemplateSource::FileBacked { directory, relative_path } => TemplateSource::FileBacked {
                directory: directory.clone(),
                relative_path: relative_path.clone(),
            },
            TemplateSource::Embedded { text } => TemplateSource::Embedded { text: text.clone() },
        }
    }
}

/// The named-template store: a registry mapping each template name to its
/// source, and a cache mapping names to compiled (compile-checked) source
/// text, run in one of two modes.
pub struct Environment {
    mode: Mode,
    entries: Vec<(String, TemplateSource)>,
    compiled: Vec<(String, String)>,
}

impl Environment {
    /// The store's operating mode.
    pub closed spec fn spec_mode(self) -> Mode {
        self.mode
    }

    /// The registry: what source each template name has.
    pub closed spec fn registry(self) -> Map<Seq<char>, SourceView> {
        assoc_map(self.entries@)
    }

    /// The cache: the compiled source text each name currently renders from.
    pub closed spec fn cache(self) -> Map<Seq<char>, Seq<char>> {
        assoc_map(self.compiled@)
    }

    /// Well-formedness: names are unique; every cached text belongs to a
    /// registered name and passed the compile check; in ProdCached mode every
    /// source is embedded and the cache never disagrees with it.
    pub closed spec fn wf(self) -> bool {
        &&& unique_keys(self.entries@)
        &&& unique_keys(self.compiled@)
        &&& forall|i: int|
            0 <= i < self.compiled@.len() ==> self.registry().contains_key(
                (#[trigger] self.compiled@[i]).0@,
            )
        &&& forall|i: int|
            0 <= i < self.compiled@.len() ==> template_compiles(
                (#[trigger] self.compiled@[i]).1@,
            )
        &&& self.mode == Mode::ProdCached ==> forall|i: int|
            0 <= i < self.entries@.len() ==> (#[trigger] self.entries@[i]).1@ is Embedded
        &&& self.mode == Mode::ProdCached ==> forall|i: int|
            0 <= i < self.compiled@.len() ==> self.registry().contains_key(
                (#[trigger] self.compiled@[i]).0@,
            ) && self.compiled@[i].1@ == embedded_text(self.registry()[self.compiled@[i].0@])
    }

    /// Every cached name is registered (exposed form of the invariant).
    pub proof fn lemma_cache_registered(self, name: Seq<char>)
        requires
            self.wf(),
            self.cache().contains_key(name),
        ensures
            self.registry().contains_key(name),
            template_compiles(self.cache()[name]),
    {
        lemma_assoc_contains(self.compiled@, name);
        let i = choose|i: int|
            0 <= i < self.compiled@.len() && (#[trigger] self.compiled@[i]).0@ == name;
        lemma_assoc_index(self.compiled@, i);
    }

    /// A fresh, empty store in the given mode.
    pub fn new(mode: Mode) -> (r: Environment)
        ensures
            r.wf(),
            r.spec_mode() == mode,
            r.registry() == Map::<Seq<char>, SourceView>::empty(),
            r.cache() == Map::<Seq<char>, Seq<char>>::empty(),
    {
        Environment { mode, entries: Vec::new(), compiled: Vec::new() }
    }

    /// The store's mode, readable at run time.
    pub fn mode(&self) -> (r: Mode)
        ensures
            r == self.spec_mode(),
    {
        self.mode
    }

    /// Register a template source under a name. Returns false, changing
    /// nothing, if the name is already taken or if a ProdCached store is
    /// handed a file-backed source (production text is fixed at build time).
    pub fn add_source(&mut self, name: String, source: TemplateSource) -> (r: bool)
        requires
            old(self).wf(),
        ensures
            final(self).wf(),
            final(self).spec_mode() == old(self).spec_mode(),
            r == (!old(self).registry().contains_key(name@) && (old(self).spec_mode()
                == Mode::ProdCached ==> source@ is Embedded)),
            r ==> final(self).registry() == old(self).registry().insert(name@, source@),
            r ==> final(self).cache() == old(self).cache(),
            !r ==> final(self).registry() == old(self).registry() && final(self).cache() == old(self).cache(),
    {
        proof {
            lemma_assoc_contains(self.entries@, name@);
        }
        let taken = find_entry(&self.entries, &name).is_some();
        let rejected = taken || (matches!(self.mode, Mode::ProdCached) && matches!(
            source,
            TemplateSource::FileBacked { .. },
        ));
        if rejected {
            false
        } else {
            proof {
                lemma_assoc_push(self.entries@, name, source);
            }
            let ghost pre = *self;
            self.entries.push((name, source));
            proof {
                assert forall|i: int|
                    0 <= i < self.compiled@.len() implies self.registry().contains_key(
                    (#[trigger] self.compiled@[i]).0@,
                ) by {
                    assert(pre.registry().contains_key(self.compiled@[i].0@));
                }
                if self.mode == Mode::ProdCached {
                    assert forall|i: int| 0 <= i < self.compiled@.len() implies self.compiled@[i].1@
                        == embedded_text(self.registry()[(#[trigger] self.compiled@[i]).0@]) by {
                        assert(pre.registry().contains_key(self.compiled@[i].0@));
                        assert(self.compiled@[i].0@ != name@);
                    }
                }
            }
            true
        }
    }

    /// Resolve a name to its registered source: the development caller reads
    /// the file it names, the production caller already holds the text.
    /// Fails with `TemplateNotFound` exactly when the name is unregistered.
    pub fn resolve(&self, name: &String) -> (r: Result<TemplateSource, ServiceError>)
        requires
            self.wf(),
        ensures
            self.registry().contains_key(name@) ==> (r matches Ok(s) && s@
                == self.registry()[name@]),
            !self.registry().contains_key(name@) ==> r == Err::<TemplateSource, ServiceError>(
                ServiceError::TemplateNotFound,
            ),
    {
        proof {
            lemma_assoc_contains(self.entries@, name@);
        }
        match find_entry(&self.entries, name) {
            Some(i) => {
                proof {
                    lemma_assoc_found(self.entries@, i as int, name@);
                }
                Ok(self.entries[i].1.clone())
            },
            None => Err(ServiceError::TemplateNotFound),
        }
    }

    /// Drop the cached entry for a name if present: a no-op (not an error)
    /// when the entry is absent, and a no-op altogether in ProdCached mode,
    /// whose cache is frozen.
    pub fn invalidate(&mut self, name: &String)
        requires
            old(self).wf(),
        ensures
            final(self).wf(),
            final(self).spec_mode() == old(self).spec_mode(),
            final(self).registry() == old(self).registry(),
            old(self).spec_mode() == Mode::ProdCached ==> final(self).cache() == old(self).cache(),
            old(self).spec_mode() == Mode::DevReload ==> final(self).cache() == old(self).cache().remove(name@),
    {
        if matches!(self.mode, Mode::ProdCached) {
            return ;
        }
        self.drop_cached(name);
    }

    /// Remove any cached entry for a name, regardless of mode.
    fn drop_cached(&mut self, name: &String)
        requires
            old(self).wf(),
            old(self).spec_mode() == Mode::DevReload,
        ensures
            final(self).wf(),
            final(self).spec_mode() == old(self).spec_mode(),
            final(self).registry() == old(self).registry(),
            final(self).cache() == old(self).cache().remove(name@),
    {
        proof {
            lemma_assoc_contains(self.compiled@, name@);
        }
        match find_entry(&self.compiled, name) {
            Some(i) => {
                proof {
                    lemma_assoc_remove(self.compiled@, i as int);
                    assert(self.compiled@[i as int].0@ == name@);
                }
                let ghost pre = *self;
                self.compiled.remove(i);
                proof {
                    assert forall|j: int|
                        0 <= j < self.compiled@.len() implies self.registry().contains_key(
                        (#[trigger] self.compiled@[j]).0@,
                    ) && template_compiles(self.compiled@[j].1@) by {
                        let j0: int = if j < i as int {
                            j
                        } else {
                            j + 1
                        };
                        assert(self.compiled@[j] == pre.compiled@[j0]);
                    }
                }
            },
            None => {
                proof {
                    lemma_assoc_absent(self.compiled@, name@);
                    assert(self.cache() =~= self.cache().remove(name@));
                }
            },
        }
    }

    /// Compile the given text as the current source for a registered name and
    /// cache it, replacing any stale entry: the invalidate-and-recompile pair
    /// of one DevReload render, in one exclusive call. On a syntax error the
    /// stale entry stays dropped; an unregistered name is `TemplateNotFound`.
    pub fn compile_from(&mut self, name: &String, text: String) -> (r: Result<(), ServiceError>)
        requires
            old(self).wf(),
            old(self).spec_mode() == Mode::DevReload,
        ensures
            final(self).wf(),
            final(self).spec_mode() == old(self).spec_mode(),
            final(self).registry() == old(self).registry(),
            !old(self).registry().contains_key(name@) ==> r == Err::<(), ServiceError>(
                ServiceError::TemplateNotFound,
            ) && final(self).cache() == old(self).cache(),
            old(self).registry().contains_key(name@) && template_compiles(text@) ==> r == Ok::<
                (),
                ServiceError,
            >(()) && final(self).cache() == old(self).cache().insert(name@, text@),
            old(self).registry().contains_key(name@) && !template_compiles(text@) ==> r == Err::<
                (),
                ServiceError,
            >(ServiceError::TemplateSyntaxError) && final(self).cache() == old(self).cache().remove(name@),
    {
        proof {
            lemma_assoc_contains(self.entries@, name@);
        }
        if find_entry(&self.entries, name).is_none() {
            return Err(ServiceError::TemplateNotFound);
        }
        self.drop_cached(name);
        if compile_check(&text) {
            proof {
                lemma_assoc_contains(self.compiled@, name@);
                lemma_assoc_push(self.compiled@, *name, text);
            }
            let ghost pre = *self;
            self.compiled.push((name.clone(), text));
            proof {
                assert(pre.cache() == old(self).cache().remove(name@));
                assert(pre.cache().insert(name@, text@) =~= old(self).cache().insert(name@, text@));
                assert forall|j: int|
                    0 <= j < self.compiled@.len() implies self.registry().contains_key(
                    (#[trigger] self.compiled@[j]).0@,
                ) && template_compiles(self.compiled@[j].1@) by {
                    if j < self.compiled@.len() - 1 {
                        assert(self.compiled@[j] == pre.compiled@[j]);
                    }
                }
            }
            Ok(())
        } else {
            Err(ServiceError::TemplateSyntaxError)
        }
    }

    /// Ensure a name has a cached compiled template: the cached entry if
    /// present, else compiled from its embedded source. A file-backed source
    /// must already be cached, since only the caller can read its file.
    pub fn get_or_compile(&mut self, name: &String) -> (r: Result<(), ServiceError>)
        requires
            old(self).wf(),
            old(self).registry().contains_key(name@) && old(self).registry()[name@] is FileBacked
                ==> old(self).cache().contains_key(name@),
        ensures
            final(self).wf(),
            final(self).spec_mode() == old(self).spec_mode(),
            final(self).registry() == old(self).registry(),
            !old(self).registry().contains_key(name@) ==> r == Err::<(), ServiceError>(
                ServiceError::TemplateNotFound,
            ) && final(self).cache() == old(self).cache(),
            old(self).cache().contains_key(name@) ==> r == Ok::<(), ServiceError>(()) && final(self).cache() == old(self).cache(),
            old(self).registry().contains_key(name@) && !old(self).cache().contains_key(name@)
                ==> {
                let text = embedded_text(old(self).registry()[name@]);
                if template_compiles(text) {
                    r == Ok::<(), ServiceError>(()) && final(self).cache() == old(self).cache().insert(name@, text)
                } else {
                    r == Err::<(), ServiceError>(ServiceError::TemplateSyntaxError) && final(self).cache() == old(self).cache()
                }
            },
    {
        proof {
            lemma_assoc_contains(self.entries@, name@);
            lemma_assoc_contains(self.compiled@, name@);
        }
        let reg = match find_entry(&self.entries, name) {
            Some(i) => i,
            None => {
                return Err(ServiceError::TemplateNotFound);
            },
        };
        if find_entry(&self.compiled, name).is_some() {
            return Ok(());
        }
        proof {
            lemma_assoc_found(self.entries@, reg as int, name@);
        }
        let text = match &self.entries[reg].1 {
            TemplateSource::Embedded { text } => text.clone(),
            TemplateSource::FileBacked { .. } => {
                proof {
                    assert(false);
                }
                return Err(ServiceError::TemplateNotFound);
            },
        };
        if compile_check(&text) {
            proof {
                lemma_assoc_push(self.compiled@, *name, text);
            }
            let ghost pre = *self;
            self.compiled.push((name.clone(), text));
            proof {
                assert forall|j: int|
                    0 <= j < self.compiled@.len() implies self.registry().contains_key(
                    (#[trigger] self.compiled@[j]).0@,
                ) && template_compiles(self.compiled@[j].1@) by {
                    if j < self.compiled@.len() - 1 {
                        assert(self.compiled@[j] == pre.compiled@[j]);
                    }
                }
            }
            Ok(())
        } else {
            Err(ServiceError::TemplateSyntaxError)
        }
    }

    /// What a cached render returns, as a function of the cache and the
    /// context alone: `TemplateNotFound` for an uncached name, else the
    /// engine's outcome on the cached text, with `RenderError` for a failed
    /// render.
    pub open spec fn spec_render(self, name: Seq<char>, ctx: CtxView) -> Result<
        Seq<char>,
        ServiceError,
    > {
        if !self.cache().contains_key(name) {
            Err(ServiceError::TemplateNotFound)
        } else {
            match render_outcome(self.cache()[name], ctx) {
                Some(t) => Ok(t),
                None => Err(ServiceError::RenderError),
            }
        }
    }

    /// Render a cached template against a context. Takes the store by shared
    /// reference: after a ProdCached preload, any number of renders may run
    /// concurrently, lock-free, and each is determined by the frozen cache.
    pub fn render(&self, name: &String, ctx: &RenderContext) -> (r: Result<String, ServiceError>)
        requires
            self.wf(),
        ensures
            r matches Ok(s) <==> self.spec_render(name@, ctx@) is Ok,
            r matches Ok(s) ==> s@ == self.spec_render(name@, ctx@)->Ok_0,
            r matches Err(e) ==> e == self.spec_render(name@, ctx@)->Err_0,
    {
        proof {
            lemma_assoc_contains(self.compiled@, name@);
        }
        match find_entry(&self.compiled, name) {
            Some(i) => {
                proof {
                    lemma_assoc_found(self.compiled@, i as int, name@);
                }
                match render_source(&self.compiled[i].1, ctx) {
                    Some(s) => Ok(s),
                    None => Err(ServiceError::RenderError),
                }
            },
            None => Err(ServiceError::TemplateNotFound),
        }
    }

    /// One whole DevReload render: drop the stale entry for this name,
    /// recompile it from the text just read from its source, and render, all
    /// in one exclusive call, so no concurrent render can observe the name as
    /// missing between the invalidate and the recompile. A registered name
    /// therefore never yields `TemplateNotFound`, and no other name's cache
    /// entry is touched.
    pub fn render_fresh(&mut self, name: &String, text: String, ctx: &RenderContext) -> (r: Result<
        String,
        ServiceError,
    >)
        requires
            old(self).wf(),
            old(self).spec_mode() == Mode::DevReload,
        ensures
            final(self).wf(),
            final(self).spec_mode() == old(self).spec_mode(),
            final(self).registry() == old(self).registry(),
            old(self).registry().contains_key(name@) ==> r != Err::<String, ServiceError>(
                ServiceError::TemplateNotFound,
            ),
            !old(self).registry().contains_key(name@) ==> r == Err::<String, ServiceError>(
                ServiceError::TemplateNotFound,
            ) && final(self).cache() == old(self).cache(),
            old(self).registry().contains_key(name@) && !template_compiles(text@) ==> r == Err::<
                String,
                ServiceError,
            >(ServiceError::TemplateSyntaxError) && final(self).cache() == old(self).cache().remove(name@),
            old(self).registry().contains_key(name@) && template_compiles(text@) ==> final(self).cache() == old(self).cache().insert(name@, text@) && (match render_outcome(
                text@,
                ctx@,
            ) {
                Some(t) => r matches Ok(s) && s@ == t,
                None => r == Err::<String, ServiceError>(ServiceError::RenderError),
            }),
            forall|k: Seq<char>|
                k != name@ ==> (final(self).cache().contains_key(k) <==> old(self).cache().contains_key(k)) && (final(self).cache().contains_key(k) ==> final(self).cache()[k] == old(self).cache()[k]),
    {
        match self.compile_from(name, text) {
            Ok(()) => self.render(name, ctx),
            Err(e) => Err(e),
        }
    }

    /// Compile every registered template eagerly, at ProdCached startup.
    /// Succeeds exactly when every registered source compiles, leaving every
    /// name cached; any failure is reported as `TemplateSyntaxError`, and
    /// startup must abort rather than serve a partially loaded set.
    pub fn preload_all(&mut self) -> (r: Result<(), ServiceError>)
        requires
            old(self).wf(),
            old(self).spec_mode() == Mode::ProdCached,
        ensures
            final(self).wf(),
            final(self).spec_mode() == old(self).spec_mode(),
            final(self).registry() == old(self).registry(),
            r is Ok <==> (forall|k: Seq<char>|
                old(self).registry().contains_key(k) ==> template_compiles(
                    embedded_text(#[trigger] old(self).registry()[k]),
                )),
            r is Ok ==> (forall|k: Seq<char>|
                final(self).registry().contains_key(k) ==> final(self).cache().contains_key(k)),
            r is Err ==> r == Err::<(), ServiceError>(ServiceError::TemplateSyntaxError),
    {
        let mut names: Vec<String> = Vec::new();
        let n = self.entries.len();
        let mut i: usize = 0;
        while i < n
            invariant
                *self == *old(self),
                n == self.entries@.len(),
                0 <= i <= n,
                names@.len() == i as int,
                forall|j: int|
                    0 <= j < i ==> (#[trigger] names@[j])@ == old(self).entries@[j].0@,
            decreases n - i,
        {
            names.push(self.entries[i].0.clone());
            i += 1;
        }
        let mut k: usize = 0;
        while k < names.len()
            invariant
                self.wf(),
                old(self).wf(),
                old(self).spec_mode() == Mode::ProdCached,
                self.spec_mode() == old(self).spec_mode(),
                self.registry() == old(self).registry(),
                names@.len() == old(self).entries@.len(),
                forall|j: int|
                    0 <= j < names@.len() ==> (#[trigger] names@[j])@ == old(
                        self,
                    ).entries@[j].0@,
                0 <= k <= names@.len(),
                forall|j: int| 0 <= j < k ==> self.cache().contains_key((#[trigger] names@[j])@),
            decreases names@.len() - k,
        {
            let ghost key = names@[k as int]@;
            proof {
                lemma_assoc_index(old(self).entries@, k as int);
                assert(self.registry().contains_key(key));
                lemma_assoc_contains(self.entries@, key);
                let j = choose|j: int|
                    0 <= j < self.entries@.len() && (#[trigger] self.entries@[j]).0@ == key;
                lemma_assoc_index(self.entries@, j);
                assert(self.registry()[key] is Embedded);
            }
            let ghost before = *self;
            match self.get_or_compile(&names[k]) {
                Ok(()) => {},
                Err(_) => {
                    proof {
                        assert(old(self).registry().contains_key(key));
                        assert(!template_compiles(embedded_text(old(self).registry()[key])));
                    }
                    return Err(ServiceError::TemplateSyntaxError);
                },
            }
            proof {
                assert forall|j: int| 0 <= j < k + 1 implies self.cache().contains_key(
                    (#[trigger] names@[j])@,
                ) by {
                    if j < k {
                        assert(before.cache().contains_key(names@[j]@));
                    }
                }
            }
            k += 1;
        }
        proof {
            assert forall|kk: Seq<char>| self.registry().contains_key(kk) implies self.cache(
            ).contains_key(kk) by {
                lemma_assoc_contains(old(self).entries@, kk);
                let j = choose|j: int|
                    0 <= j < old(self).entries@.len() && (#[trigger] old(self).entries@[j]).0@
                        == kk;
                assert(self.cache().contains_key(names@[j]@));
            }
            assert forall|k: Seq<char>| self.registry().contains_key(k) implies self.cache(
            ).contains_key(k) by {
                lemma_assoc_contains(self.entries@, k);
                let j = choose|j: int|
                    0 <= j < self.entries@.len() && (#[trigger] self.entries@[j]).0@ == k;
                assert(self.cache().contains_key(self.entries@[j].0@));
            }
            assert forall|kk: Seq<char>| old(self).registry().contains_key(kk) implies
            template_compiles(embedded_text(#[trigger] old(self).registry()[kk])) by {
                self.lemma_cache_registered(kk);
                lemma_assoc_contains(self.entries@, kk);
                let j = choose|j: int|
                    0 <= j < self.entries@.len() && (#[trigger] self.entries@[j]).0@ == kk;
                lemma_assoc_index(self.entries@, j);
                lemma_assoc_contains(self.compiled@, kk);
                let c = choose|c: int|
                    0 <= c < self.compiled@.len() && (#[trigger] self.compiled@[c]).0@ == kk;
                lemma_assoc_index(self.compiled@, c);
            }
        }
        Ok(())
    }
}

/// Law: a cached render reads the cache alone. Two stores with equal caches
/// render every name and context identically; a ProdCached store's cache is
/// frozen after preload, so its repeated renders are content-stable however
/// the backing files change - file paths enter only through the registry,
/// which a cached render never consults.
pub proof fn lemma_render_reads_cache_only(
    e1: Environment,
    e2: Environment,
    name: Seq<char>,
    ctx: CtxView,
)
    requires
        e1.cache() == e2.cache(),
    ensures
        e1.spec_render(name, ctx) == e2.spec_render(name, ctx),
{
}

/// Linear scan for a name among the entries of a name-keyed list.
fn find_entry<T>(entries: &Vec<(String, T)>, name: &String) -> (r: Option<usize>)
    ensures
        match r {
            Some(i) => i < entries@.len() && entries@[i as int].0@ == name@,
            None => forall|i: int|
                0 <= i < entries@.len() ==> (#[trigger] entries@[i]).0@ != name@,
        },
{
    let mut i: usize = 0;
    while i < entries.len()
        invariant
            0 <= i <= entries@.len(),
            forall|j: int| 0 <= j < i ==> (#[trigger] entries@[j]).0@ != name@,
        decreases entries@.len() - i,
    {
        if entries[i].0.eq(name) {
            return Some(i);
        }
        i += 1;
    }
    None
}

/// A found index pins the map's value at that name.
proof fn lemma_assoc_found<T: View>(entries: Seq<(String, T)>, i: int, k: Seq<char>)
    requires
        unique_keys(entries),
        0 <= i < entries.len(),
        entries[i].0@ == k,
    ensures
        assoc_map(entries).contains_key(k),
        assoc_map(entries)[k] == entries[i].1@,
{
    lemma_assoc_index(entries, i);
}

} // verus!

//! The interpreter's state: the global symbol table that all threads share,
//! each thread's local names, and the source lines entered so far.
use vstd::prelude::*;
use vstd::hash_map::StringHashMap;
use crate::array::{JVal, wf, share};
use crate::gpu::Backend;
use crate::text::string_of;

verus! {

broadcast use vstd::string::group_string_axioms;

/// Every value in a symbol table is a well-formed array.
pub open spec fn values_wf(m: Map<Seq<char>, JVal>) -> bool {
    forall|k: Seq<char>| #[trigger] m.contains_key(k) ==> wf(m[k]@)
}

/// The state shared by all threads (J's JST): the global names.
pub struct SharedState {
    pub global: StringHashMap<JVal>,
    /// The order in which locales are searched for a name.
    pub search_path: StringHashMap<Vec<String>>,
}

impl SharedState {
    pub fn new() -> (s: SharedState)
        ensures
            s.global@ == Map::<Seq<char>, JVal>::empty(),
            s.search_path@ == Map::<Seq<char>, Vec<String>>::empty(),
    {
        SharedState { global: StringHashMap::new(), search_path: StringHashMap::new() }
    }

    /// Binds a global name.
    pub fn assign(&mut self, name: String, val: JVal)
        ensures
            final(self).global@ == old(self).global@.insert(name@, val),
            final(self).search_path@ == old(self).search_path@,
    {
        self.global.insert(name, val);
    }

    /// The value of a global name.
    pub fn lookup(&self, name: &str) -> (r: Option<JVal>)
        ensures
            r == (if self.global@.contains_key(name@) { Some(self.global@[name@]) } else { None::<JVal> }),
    {
        match self.global.get(name) {
            Some(v) => Some(share(v)),
            None => None,
        }
    }
}

/// The state of one thread (J's JTT): its local names and its locale.
pub struct ThreadState {
    pub locsyms: StringHashMap<JVal>,
    /// The locale being executed, `base` at first.
    pub current_locale: String,
}

impl ThreadState {
    pub fn new() -> (t: ThreadState)
        ensures
            t.locsyms@ == Map::<Seq<char>, JVal>::empty(),
            t.current_locale@ == "base"@,
    {
        ThreadState { locsyms: StringHashMap::new(), current_locale: string_of("base") }
    }
}

/// The interpreter: shared and thread state, the source lines (kept to mark
/// the place of an error), and the backend that verbs run on.
pub struct Interpreter {
    pub shared: SharedState,
    pub thread: ThreadState,
    pub sources: Vec<String>,
    pub backend: Backend,
}

/// The value of a name: a local binding first, then a global one.
pub open spec fn spec_lookup(
    locals: Map<Seq<char>, JVal>,
    globals: Map<Seq<char>, JVal>,
    name: Seq<char>,
) -> Option<JVal> {
    if locals.contains_key(name) {
        Some(locals[name])
    } else if globals.contains_key(name) {
        Some(globals[name])
    } else {
        None
    }
}

impl Interpreter {
    /// Every bound value is a well-formed array.
    pub open spec fn wf(&self) -> bool {
        &&& values_wf(self.shared.global@)
        &&& values_wf(self.thread.locsyms@)
    }

    /// A fresh interpreter on the CPU backend, with no names and no sources.
    pub fn new() -> (r: Interpreter)
        ensures
            r.wf(),
            r.shared.global@ == Map::<Seq<char>, JVal>::empty(),
            r.shared.search_path@ == Map::<Seq<char>, Vec<String>>::empty(),
            r.thread.locsyms@ == Map::<Seq<char>, JVal>::empty(),
            r.thread.current_locale@ == "base"@,
            r.sources@.len() == 0,
            r.backend is Cpu,
    {
        Interpreter {
            shared: SharedState::new(),
            thread: ThreadState::new(),
            sources: Vec::new(),
            backend: Backend::Cpu,
        }
    }

    /// The value of a name: local first, then global.
    pub fn lookup(&self, name: &str) -> (r: Option<JVal>)
        ensures
            r == spec_lookup(self.thread.locsyms@, self.shared.global@, name@),
    {
        match self.thread.locsyms.get(name) {
            Some(v) => Some(share(v)),
            None => self.shared.lookup(name),
        }
    }

    /// Binds a global name (`=:`).
    pub fn assign_global(&mut self, name: String, val: JVal)
        ensures
            final(self).shared.global@ == old(self).shared.global@.insert(name@, val),
            final(self).shared.search_path@ == old(self).shared.search_path@,
            final(self).thread.locsyms@ == old(self).thread.locsyms@,
            final(self).thread.current_locale@ == old(self).thread.current_locale@,
            final(self).sources@ == old(self).sources@,
    {
        self.shared.assign(name, val);
    }

    /// Records a source line before it is tokenized, so that an error can
    /// mark its place.
    pub fn push_source(&mut self, source: String)
        ensures
            final(self).sources@ == old(self).sources@.push(source),
            final(self).shared.global@ == old(self).shared.global@,
            final(self).shared.search_path@ == old(self).shared.search_path@,
            final(self).thread.locsyms@ == old(self).thread.locsyms@,
            final(self).thread.current_locale@ == old(self).thread.current_locale@,
    {
        self.sources.push(source);
    }

    /// The source line pushed last, if any.
    pub fn current_source(&self) -> (r: Option<&str>)
        ensures
            r is Some <==> self.sources@.len() > 0,
            r matches Some(s) ==> s@ == self.sources@.last()@,
    {
        let n = self.sources.len();
        if n == 0 {
            None
        } else {
            Some(self.sources[n - 1].as_str())
        }
    }
}

/// A value bound by `assign_global` is what `lookup` then finds, unless a
/// local binding of the same name hides it.
pub proof fn assign_then_lookup(
    locals: Map<Seq<char>, JVal>,
    globals: Map<Seq<char>, JVal>,
    name: Seq<char>,
    val: JVal,
)
    requires
        !locals.contains_key(name),
    ensures
        spec_lookup(locals, globals.insert(name, val), name) == Some(val),
{
}

/// Binding one global name leaves the value of every other name unchanged.
pub proof fn assign_keeps_other_names(
    locals: Map<Seq<char>, JVal>,
    globals: Map<Seq<char>, JVal>,
    name: Seq<char>,
    other: Seq<char>,
    val: JVal,
)
    requires
        name != other,
    ensures
        spec_lookup(locals, globals.insert(name, val), other) == spec_lookup(locals, globals, other),
{
}

} // verus!

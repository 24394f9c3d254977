//! Environments: frames of name-to-value bindings with lexical parent links,
//! and the interpreter state that holds them.

use vstd::prelude::*;
pub use crate::types::Env;
use crate::types::{vals, Builtin, TypeTag, Val, Value};

verus! {

/// The model of one environment frame.
pub struct Frame {
    pub parent: Option<nat>,
    pub vars: Map<Seq<char>, Val>,
}

/// The model of an interpreter's state: everything that evaluation can read
/// or change besides the expression in hand.
pub struct World {
    /// The environment frames; a frame's handle is its index.
    pub frames: Seq<Frame>,
    /// The contents of the atoms; an atom's handle is its index.
    pub atoms: Seq<Val>,
    /// The documentation strings, by name.
    pub docs: Map<Seq<char>, Seq<char>>,
    /// A documentation string that waits for the next definition.
    pub pending_doc: Option<Seq<char>>,
    /// The lines printed so far.
    pub output: Seq<Seq<char>>,
    /// The lines of input not yet read.
    pub input: Seq<Seq<char>>,
    /// Whether the program asked to stop.
    pub quit: bool,
}

impl World {
    /// The binding of `k` that is visible from the frame `env`: the frame's
    /// own, else that of the nearest ancestor that has one.
    pub open spec fn lookup(self, env: nat, k: Seq<char>) -> Option<Val>
        decreases env,
    {
        if env >= self.frames.len() {
            None
        } else if self.frames[env as int].vars.contains_key(k) {
            Some(self.frames[env as int].vars[k])
        } else {
            match self.frames[env as int].parent {
                Some(p) => if p < env {
                    self.lookup(p, k)
                } else {
                    None
                },
                None => None,
            }
        }
    }

    /// The state after `k` is bound to `v` in the frame `env` itself.
    pub open spec fn bind(self, env: nat, k: Seq<char>, v: Val) -> World {
        if env < self.frames.len() {
            World {
                frames: self.frames.update(
                    env as int,
                    Frame {
                        parent: self.frames[env as int].parent,
                        vars: self.frames[env as int].vars.insert(k, v),
                    },
                ),
                ..self
            }
        } else {
            self
        }
    }

    /// The state after an empty child of `parent` is added. Its handle is the
    /// number of frames before.
    pub open spec fn push_frame(self, parent: nat) -> World {
        World {
            frames: self.frames.push(Frame { parent: Some(parent), vars: Map::empty() }),
            ..self
        }
    }

    /// The state after a new atom that holds `v` is added. Its handle is the
    /// number of atoms before.
    pub open spec fn push_atom(self, v: Val) -> World {
        World { atoms: self.atoms.push(v), ..self }
    }

    /// The state after the atom `a` is given the contents `v`.
    pub open spec fn set_atom(self, a: nat, v: Val) -> World {
        if a < self.atoms.len() {
            World { atoms: self.atoms.update(a as int, v), ..self }
        } else {
            self
        }
    }

    /// The state after one more line is printed.
    pub open spec fn print(self, line: Seq<char>) -> World {
        World { output: self.output.push(line), ..self }
    }
}

/// The map that a list of bindings stands for: of two bindings of one name
/// the later one counts.
pub open spec fn bindings<T: View>(s: Seq<(String, T)>) -> Map<Seq<char>, T::V>
    decreases s.len(),
{
    if s.len() == 0 {
        Map::empty()
    } else {
        bindings(s.drop_last()).insert(s.last().0@, s.last().1@)
    }
}

/// A name that no binding names is not in the map.
pub proof fn lemma_bindings_absent<T: View>(s: Seq<(String, T)>, k: Seq<char>)
    requires
        forall|j: int| 0 <= j < s.len() ==> (#[trigger] s[j]).0@ != k,
    ensures
        !bindings(s).contains_key(k),
    decreases s.len(),
{
    if s.len() > 0 {
        lemma_bindings_absent(s.drop_last(), k);
    }
}

/// The last binding of a name is the one in the map.
pub proof fn lemma_bindings_present<T: View>(s: Seq<(String, T)>, i: int, k: Seq<char>)
    requires
        0 <= i < s.len(),
        s[i].0@ == k,
        forall|j: int| i < j < s.len() ==> (#[trigger] s[j]).0@ != k,
    ensures
        bindings(s).contains_key(k),
        bindings(s)[k] == s[i].1@,
    decreases s.len(),
{
    if i < s.len() - 1 {
        lemma_bindings_present(s.drop_last(), i, k);
    }
}

/// Replacing the value of the last binding of a name is inserting into the
/// map.
pub proof fn lemma_bindings_update<T: View>(s: Seq<(String, T)>, i: int, e: (String, T))
    requires
        0 <= i < s.len(),
        s[i].0@ == e.0@,
        forall|j: int| i < j < s.len() ==> (#[trigger] s[j]).0@ != e.0@,
    ensures
        bindings(s.update(i, e)) == bindings(s).insert(e.0@, e.1@),
    decreases s.len(),
{
    let t = s.update(i, e);
    if i == s.len() - 1 {
        assert(t.drop_last() == s.drop_last());
        assert(bindings(t) =~= bindings(s).insert(e.0@, e.1@));
    } else {
        lemma_bindings_update(s.drop_last(), i, e);
        assert(t.drop_last() == s.drop_last().update(i, e));
        assert(t.last() == s.last());
        assert(bindings(t) =~= bindings(s).insert(e.0@, e.1@));
    }
}

/// The index of the last binding of `k`, if there is one.
pub fn find_binding<T>(entries: &Vec<(String, T)>, k: &str) -> (r: Option<usize>)
    ensures
        match r {
            Some(i) => {
                &&& i < entries.len()
                &&& entries@[i as int].0@ == k@
                &&& forall|j: int| i < j < entries.len() ==> (#[trigger] entries@[j]).0@ != k@
            },
            None => forall|j: int| 0 <= j < entries.len() ==> (#[trigger] entries@[j]).0@ != k@,
        },
{
    let key = k.to_owned();
    let mut i: usize = entries.len();
    while i > 0
        invariant
            i <= entries.len(),
            key@ == k@,
            forall|j: int| i <= j < entries.len() ==> (#[trigger] entries@[j]).0@ != k@,
        decreases i,
    {
        i -= 1;
        if entries[i].0 == key {
            return Some(i);
        }
    }
    None
}

/// Binds `k` to `v` in a list of bindings: in place where the name is bound,
/// at the end where it is not.
pub fn put_binding<T: View>(entries: &mut Vec<(String, T)>, k: &str, v: T)
    ensures
        bindings(final(entries)@) == bindings(old(entries)@).insert(k@, v@),
{
    let found = find_binding(entries, k);
    let entry = (k.to_owned(), v);
    match found {
        Some(i) => {
            proof {
                lemma_bindings_update(entries@, i as int, entry);
            }
            entries[i] = entry;
        },
        None => {
            entries.push(entry);
            assert(entries@.drop_last() == old(entries)@);
        },
    }
}

/// One frame of an environment: its bindings and the handle of the frame
/// around it.
pub struct EnvData {
    pub parent: Option<Env>,
    pub data: Vec<(String, Value)>,
}

impl View for EnvData {
    type V = Frame;

    open spec fn view(&self) -> Frame {
        Frame {
            parent: match self.parent {
                Some(p) => Some(p as nat),
                None => None,
            },
            vars: bindings(self.data@),
        }
    }
}

/// The state of an interpreter.
pub struct Interp {
    pub frames: Vec<EnvData>,
    pub atoms: Vec<Value>,
    pub docs: Vec<(String, String)>,
    pub pending_doc: Option<String>,
    pub output: Vec<String>,
    pub input: Vec<String>,
    pub quit: bool,
}

impl View for Interp {
    type V = World;

    open spec fn view(&self) -> World {
        World {
            frames: Seq::new(self.frames@.len(), |i: int| self.frames@[i]@),
            atoms: Seq::new(self.atoms@.len(), |i: int| self.atoms@[i]@),
            docs: bindings(self.docs@),
            pending_doc: match self.pending_doc {
                Some(d) => Some(d@),
                None => None,
            },
            output: Seq::new(self.output@.len(), |i: int| self.output@[i]@),
            input: Seq::new(self.input@.len(), |i: int| self.input@[i]@),
            quit: self.quit,
        }
    }
}

/// The model of an optional value.
pub open spec fn option_val(o: Option<Value>) -> Option<Val> {
    match o {
        Some(v) => Some(v@),
        None => None,
    }
}

impl EnvData {
    /// The value bound to `k` in this frame, else in the nearest frame around
    /// it that binds `k`.
    #[must_use]
    pub fn get(&self, k: &str, interp: &Interp) -> (r: Option<Value>)
        ensures
            option_val(r) == (if self@.vars.contains_key(k@) {
                Some(self@.vars[k@])
            } else {
                match self@.parent {
                    Some(p) => interp@.lookup(p, k@),
                    None => None,
                }
            }),
    {
        match find_binding(&self.data, k) {
            Some(i) => {
                proof {
                    lemma_bindings_present(self.data@, i as int, k@);
                }
                Some(self.data[i].1.clone())
            },
            None => {
                proof {
                    lemma_bindings_absent(self.data@, k@);
                }
                match self.parent {
                    Some(p) => interp.lookup(p, k),
                    None => None,
                }
            },
        }
    }

    /// Binds `k` to `v` in this frame: a new binding, or a new value for the
    /// one that was there.
    pub fn set(&mut self, k: &str, v: Value)
        ensures
            final(self)@.parent == old(self)@.parent,
            final(self)@.vars == old(self)@.vars.insert(k@, v@),
    {
        put_binding(&mut self.data, k, v);
    }
}

impl Interp {
    /// An interpreter with no frame, no atom and nothing printed.
    pub fn new() -> (res: Interp)
        ensures
            res@.frames.len() == 0,
            res@.atoms.len() == 0,
            res@.docs == Map::<Seq<char>, Seq<char>>::empty(),
            res@.pending_doc is None,
            res@.output.len() == 0,
            res@.input.len() == 0,
            !res@.quit,
    {
        Interp {
            frames: Vec::new(),
            atoms: Vec::new(),
            docs: Vec::new(),
            pending_doc: None,
            output: Vec::new(),
            input: Vec::new(),
            quit: false,
        }
    }

    /// The value of `k` as seen from the frame `env`.
    #[must_use]
    pub fn lookup(&self, env: Env, k: &str) -> (r: Option<Value>)
        ensures
            option_val(r) == self@.lookup(env as nat, k@),
    {
        let mut cur = env;
        loop
            invariant
                self@.lookup(cur as nat, k@) == self@.lookup(env as nat, k@),
            decreases cur,
        {
            if cur >= self.frames.len() {
                return None;
            }
            let frame = &self.frames[cur];
            assert(self@.frames[cur as int] == frame@);
            match find_binding(&frame.data, k) {
                Some(i) => {
                    proof {
                        lemma_bindings_present(frame.data@, i as int, k@);
                    }
                    return Some(frame.data[i].1.clone());
                },
                None => {
                    proof {
                        lemma_bindings_absent(frame.data@, k@);
                    }
                },
            }
            match frame.parent {
                Some(p) => {
                    if p < cur {
                        cur = p;
                    } else {
                        return None;
                    }
                },
                None => {
                    return None;
                },
            }
        }
    }

    /// Binds `k` to `v` in the frame `env` itself. Nothing changes where
    /// `env` names no frame.
    pub fn define(&mut self, env: Env, k: &str, v: Value)
        ensures
            final(self)@ == old(self)@.bind(env as nat, k@, v@),
    {
        if env < self.frames.len() {
            self.frames[env].set(k, v);
            assert(self@.frames =~= old(self)@.bind(env as nat, k@, v@).frames);
            assert(self@.atoms =~= old(self)@.atoms);
            assert(self@.output =~= old(self)@.output);
            assert(self@.input =~= old(self)@.input);
        }
    }
}

impl World {
    /// The state after the documentation string that waits, if there is
    /// one, is given to `name`.
    pub open spec fn attach_doc(self, name: Seq<char>) -> World {
        match self.pending_doc {
            Some(d) => World { docs: self.docs.insert(name, d), pending_doc: None, ..self },
            None => self,
        }
    }

    /// The state after the first line of input is taken.
    pub open spec fn take_input(self) -> World {
        if self.input.len() > 0 {
            World { input: self.input.subrange(1, self.input.len() as int), ..self }
        } else {
            self
        }
    }
}

impl Interp {
    /// Adds an atom that holds `v` and gives its handle.
    pub fn alloc_atom(&mut self, v: Value) -> (a: usize)
        ensures
            a == old(self)@.atoms.len(),
            final(self)@ == old(self)@.push_atom(v@),
    {
        let a = self.atoms.len();
        self.atoms.push(v);
        assert(self@.atoms =~= old(self)@.push_atom(v@).atoms);
        assert(self@.frames =~= old(self)@.frames);
        assert(self@.output =~= old(self)@.output);
        assert(self@.input =~= old(self)@.input);
        a
    }

    /// What the atom `a` holds, if there is such an atom.
    pub fn atom_value(&self, a: usize) -> (r: Option<Value>)
        ensures
            r is Some <==> a < self@.atoms.len(),
            r matches Some(v) ==> v@ == self@.atoms[a as int],
    {
        if a < self.atoms.len() {
            Some(self.atoms[a].clone())
        } else {
            None
        }
    }

    /// Stores `v` in the atom `a`. Nothing changes where there is no such
    /// atom.
    pub fn store_atom(&mut self, a: usize, v: Value)
        ensures
            final(self)@ == old(self)@.set_atom(a as nat, v@),
    {
        if a < self.atoms.len() {
            self.atoms[a] = v;
            assert(self@.atoms =~= old(self)@.set_atom(a as nat, v@).atoms);
            assert(self@.frames =~= old(self)@.frames);
            assert(self@.output =~= old(self)@.output);
            assert(self@.input =~= old(self)@.input);
        }
    }

    /// Adds a line to the output.
    pub fn emit(&mut self, line: String)
        ensures
            final(self)@ == old(self)@.print(line@),
    {
        self.output.push(line);
        assert(self@.output =~= old(self)@.print(line@).output);
        assert(self@.frames =~= old(self)@.frames);
        assert(self@.atoms =~= old(self)@.atoms);
        assert(self@.input =~= old(self)@.input);
    }

    /// Takes the next line of input; the empty string where none is left.
    pub fn next_input(&mut self) -> (line: String)
        ensures
            final(self)@ == old(self)@.take_input(),
            line@ == (if old(self)@.input.len() > 0 {
                old(self)@.input[0]
            } else {
                Seq::<char>::empty()
            }),
    {
        if self.input.len() > 0 {
            let line = self.input.remove(0);
            assert(self@.input =~= old(self)@.take_input().input);
            assert(self@.frames =~= old(self)@.frames);
            assert(self@.atoms =~= old(self)@.atoms);
            assert(self@.output =~= old(self)@.output);
            line
        } else {
            String::new()
        }
    }

    /// Keeps a documentation string for the next definition.
    pub fn keep_doc(&mut self, d: String)
        ensures
            final(self)@ == (World { pending_doc: Some(d@), ..old(self)@ }),
    {
        self.pending_doc = Some(d);
        assert(self@.frames =~= old(self)@.frames);
        assert(self@.atoms =~= old(self)@.atoms);
        assert(self@.output =~= old(self)@.output);
        assert(self@.input =~= old(self)@.input);
    }

    /// Gives the documentation string that waits, if there is one, to
    /// `name`.
    pub fn attach_doc(&mut self, name: &str)
        ensures
            final(self)@ == old(self)@.attach_doc(name@),
    {
        let pending = self.pending_doc.take();
        match pending {
            Some(d) => {
                put_binding(&mut self.docs, name, d);
            },
            None => {},
        }
        assert(self@.frames =~= old(self)@.frames);
        assert(self@.atoms =~= old(self)@.atoms);
        assert(self@.output =~= old(self)@.output);
        assert(self@.input =~= old(self)@.input);
    }

    /// The documentation string of `name`, if it has one.
    pub fn doc_of(&self, name: &str) -> (r: Option<String>)
        ensures
            r is Some <==> self@.docs.contains_key(name@),
            r matches Some(d) ==> d@ == self@.docs[name@],
    {
        match find_binding(&self.docs, name) {
            Some(i) => {
                proof {
                    lemma_bindings_present(self.docs@, i as int, name@);
                }
                Some(self.docs[i].1.clone())
            },
            None => {
                proof {
                    lemma_bindings_absent(self.docs@, name@);
                }
                None
            },
        }
    }

    /// Notes that the program asked to stop.
    pub fn request_quit(&mut self)
        ensures
            final(self)@ == (World { quit: true, ..old(self)@ }),
    {
        self.quit = true;
        assert(self@.frames =~= old(self)@.frames);
        assert(self@.atoms =~= old(self)@.atoms);
        assert(self@.output =~= old(self)@.output);
        assert(self@.input =~= old(self)@.input);
    }
}

/// A new, empty frame inside `parent`.
pub fn new_env(parent: Env, interp: &mut Interp) -> (res: Env)
    ensures
        res == old(interp)@.frames.len(),
        final(interp)@ == old(interp)@.push_frame(parent as nat),
{
    let id = interp.frames.len();
    interp.frames.push(EnvData { parent: Some(parent), data: Vec::new() });
    assert(interp@.frames =~= old(interp)@.push_frame(parent as nat).frames);
    assert(interp@.atoms =~= old(interp)@.atoms);
    assert(interp@.output =~= old(interp)@.output);
    assert(interp@.input =~= old(interp)@.input);
    id
}

/// The state after the host operation `f` is bound to `name` in the root
/// frame and documented.
pub open spec fn registered(w: World, name: Seq<char>, f: Builtin, doc: Seq<char>) -> World {
    documented(w.bind(0, name, Val::Function { fn_ref: f, is_macro: false }), name, doc)
}

/// The state after `name` is given a documentation string.
pub open spec fn documented(w: World, name: Seq<char>, doc: Seq<char>) -> World {
    World { docs: w.docs.insert(name, doc), ..w }
}

/// The state before anything is registered: one frame, the root, and
/// nothing else.
pub open spec fn bare_world() -> World {
    World {
        frames: seq![Frame { parent: None, vars: Map::empty() }],
        atoms: seq![],
        docs: Map::empty(),
        pending_doc: None,
        output: seq![],
        input: seq![],
        quit: false,
    }
}

/// The state that programs start in: the root frame, which is frame 0,
/// binds every host operation to its name and `*ARGS*` to the list of the
/// program's arguments, and every operation and special form is documented.
pub open spec fn default_world(args: Seq<Val>) -> World {
    let w = bare_world();
    let w = registered(w, "+"@, Builtin::Add, "Calculate the sum of the arguments"@);
    let w = registered(w, "-"@, Builtin::Sub, "Calculate the difference between arguments. One argument calculates the negative."@);
    let w = registered(w, "*"@, Builtin::Mul, "Calculate the product of the arguments."@);
    let w = registered(w, "/"@, Builtin::Div, "Divide the two arguments, rounding toward zero."@);
    let w = registered(w, "%"@, Builtin::Rem, "Calculate the remainder when dividing the two arguments."@);
    let w = registered(w, "="@, Builtin::Eq, "Check if two values are equal"@);
    let w = registered(w, "<"@, Builtin::Lt, "Check if one numerical value is less than another"@);
    let w = registered(w, "<="@, Builtin::Le, "Check if one numerical value is less than or equal to another"@);
    let w = registered(w, ">"@, Builtin::Gt, "Check if a numerical value is greater than another"@);
    let w = registered(w, ">="@, Builtin::Ge, "Check if a numerical value is greater than or equal to another"@);
    let w = registered(w, "not"@, Builtin::Not, "Check if a value is not truthy"@);
    let w = registered(w, "print"@, Builtin::Print, "Print the arguments to stdout"@);
    let w = registered(w, "input"@, Builtin::Input, "Read a line of input from stdin"@);
    let w = registered(w, "findall"@, Builtin::Findall, "Search a string for all non-overlapping matches to a regular expression"@);
    let w = registered(w, "eval"@, Builtin::Eval, "Evaluate a given expression as code"@);
    let w = registered(w, "apply"@, Builtin::Apply, "Apply the given function using the given arguments."@);
    let w = registered(w, "map"@, Builtin::MapOver, "Apply a function to each element of a sequence"@);
    let w = registered(w, "str"@, Builtin::Str, "Concatenate the arguments into a string"@);
    let w = registered(w, "symbol"@, Builtin::Symbol, "Convert a string to a symbol"@);
    let w = registered(w, "int"@, Builtin::Int, "Convert a string to an int"@);
    let w = registered(w, "chr"@, Builtin::Chr, "Convert an integer to its corresponding character in UTF-8"@);
    let w = registered(w, "list"@, Builtin::List, "Collect the arguments into a list"@);
    let w = registered(w, "cons"@, Builtin::Cons, "Prepend a value to a list"@);
    let w = registered(w, "nth"@, Builtin::Nth, "Get the nth value of a sequence"@);
    let w = registered(w, "count"@, Builtin::Count, "Find the size of a sequence"@);
    let w = registered(w, "assoc"@, Builtin::Assoc, "Return a table with the additional keys and values put into the given table"@);
    let w = registered(w, "dissoc"@, Builtin::Dissoc, "Return a table without the specified keys"@);
    let w = registered(w, "first"@, Builtin::First, "Get the first value of a sequence."@);
    let w = registered(w, "last"@, Builtin::Last, "Get the last value of a sequence."@);
    let w = registered(w, "rest"@, Builtin::Rest, "Get a copy of a list without its first value"@);
    let w = registered(w, "get"@, Builtin::Get, "Get the value associated with a given key in a table"@);
    let w = registered(w, "keys"@, Builtin::Keys, "Get a table's keys as a sequence"@);
    let w = registered(w, "values"@, Builtin::Values, "Get a table's values as a sequence"@);
    let w = registered(w, "contains?"@, Builtin::Contains, "Check if a table contains a key"@);
    let w = registered(w, "type"@, Builtin::Type, "Get the type of a value, as a symbol"@);
    let w = registered(w, "err?"@, Builtin::TypeIs(TypeTag::Error), "Check if the value is an error"@);
    let w = registered(w, "function?"@, Builtin::TypeIs(TypeTag::Function), "Check if the value is a function"@);
    let w = registered(w, "atom?"@, Builtin::TypeIs(TypeTag::Atom), "Check if the value is an atom"@);
    let w = registered(w, "macro?"@, Builtin::TypeIs(TypeTag::Macro), "Check if the value is a macro"@);
    let w = registered(w, "list?"@, Builtin::TypeIs(TypeTag::List), "Check if the value is a list"@);
    let w = registered(w, "table?"@, Builtin::TypeIs(TypeTag::Table), "Check if the value is a table"@);
    let w = registered(w, "nil?"@, Builtin::TypeIs(TypeTag::Nil), "Check if the value is nil"@);
    let w = registered(w, "bool?"@, Builtin::TypeIs(TypeTag::Bool), "Check if the value is a boolean"@);
    let w = registered(w, "symbol?"@, Builtin::TypeIs(TypeTag::Symbol), "Check if the value is a symbol"@);
    let w = registered(w, "int?"@, Builtin::TypeIs(TypeTag::Int), "Check if the value is an integer"@);
    let w = registered(w, "macro"@, Builtin::Macro, "Convert a function to a macro. The function should take syntax as an input and produce it as output."@);
    let w = registered(w, "atom"@, Builtin::Atom, "Create a new atom with the given value inside it"@);
    let w = registered(w, "set!"@, Builtin::SetAtom, "Set the value inside an atom, returning the value it held before"@);
    let w = registered(w, "inspect!"@, Builtin::InspectAtom, "Modify the value in the atom with a function"@);
    let w = registered(w, "doc"@, Builtin::Doc, "Attach documentation to the next value that is defined"@);
    let w = registered(w, "help"@, Builtin::Help, "Retrieve the documentation for a function"@);
    let w = registered(w, "quit"@, Builtin::Quit, "Ask the read-eval-print loop to stop"@);
    let w = documented(w, "\\"@, "Create a lambda function that accepts the given parameters and returns the result of evaluating the body expression"@);
    let w = documented(w, "if"@, "If the first value is truthy, evaluate and return the second value. Otherwise, evaluate and return the third value."@);
    let w = documented(w, "quote"@, "Return the arguments without evaluating them"@);
    let w = documented(w, "quasiquote"@, "Return the arguments, only evaluating the parts within a (unquote ...) expression"@);
    let w = documented(w, "err"@, "Throw an error with the provided information. The first argument is not evaluated and should be an identifier."@);
    let w = documented(w, "let*"@, "The first argument is an alternating list of patterns and values. Each value is evaluated in order and bound to its corresponding pattern. Returns the result of evaluating the second argument with the context of the bindings created from the first argument."@);
    let w = documented(w, "def!"@, "Define a variable, providing its name and a value"@);
    let w = documented(w, "do"@, "Evaluate the arguments in order and return the value of the last"@);
    let w = documented(w, "try*"@, "Attempt to evaluate the first argument. If an exception is thrown, goes to each catch block to recover"@);
    let w = documented(w, "*ARGS*"@, "Arguments provided in the command line"@);
    w.bind(0, "*ARGS*"@, Val::List(args))
}

impl Interp {
    /// Gives `name` a documentation string.
    pub fn document(&mut self, name: &str, doc: &str)
        ensures
            final(self)@ == documented(old(self)@, name@, doc@),
    {
        put_binding(&mut self.docs, name, doc.to_owned());
        assert(self@.frames =~= old(self)@.frames);
        assert(self@.atoms =~= old(self)@.atoms);
        assert(self@.output =~= old(self)@.output);
        assert(self@.input =~= old(self)@.input);
    }

    /// Binds the host operation `f` to `name` in the root frame and
    /// documents it.
    pub fn register(&mut self, name: &str, f: Builtin, doc: &str)
        ensures
            final(self)@ == registered(old(self)@, name@, f, doc@),
    {
        self.define(0, name, Value::function(f));
        self.document(name, doc);
    }
}

/// The interpreter that programs start in. `args` are the program's
/// arguments.
#[must_use]
#[allow(clippy::too_many_lines)]
pub fn default_env(args: Vec<Value>) -> (res: Interp)
    ensures
        res@ == default_world(vals(args@)),
{
    let mut interp = Interp::new();
    interp.frames.push(EnvData { parent: None, data: Vec::new() });
    proof {
        assert(interp@.frames =~= bare_world().frames);
        assert(interp@.atoms =~= bare_world().atoms);
        assert(interp@.output =~= bare_world().output);
        assert(interp@.input =~= bare_world().input);
        assert(interp@ == bare_world());
    }
    interp.register("+", Builtin::Add, "Calculate the sum of the arguments");
    interp.register("-", Builtin::Sub, "Calculate the difference between arguments. One argument calculates the negative.");
    interp.register("*", Builtin::Mul, "Calculate the product of the arguments.");
    interp.register("/", Builtin::Div, "Divide the two arguments, rounding toward zero.");
    interp.register("%", Builtin::Rem, "Calculate the remainder when dividing the two arguments.");
    interp.register("=", Builtin::Eq, "Check if two values are equal");
    interp.register("<", Builtin::Lt, "Check if one numerical value is less than another");
    interp.register("<=", Builtin::Le, "Check if one numerical value is less than or equal to another");
    interp.register(">", Builtin::Gt, "Check if a numerical value is greater than another");
    interp.register(">=", Builtin::Ge, "Check if a numerical value is greater than or equal to another");
    interp.register("not", Builtin::Not, "Check if a value is not truthy");
    interp.register("print", Builtin::Print, "Print the arguments to stdout");
    interp.register("input", Builtin::Input, "Read a line of input from stdin");
    interp.register("findall", Builtin::Findall, "Search a string for all non-overlapping matches to a regular expression");
    interp.register("eval", Builtin::Eval, "Evaluate a given expression as code");
    interp.register("apply", Builtin::Apply, "Apply the given function using the given arguments.");
    interp.register("map", Builtin::MapOver, "Apply a function to each element of a sequence");
    interp.register("str", Builtin::Str, "Concatenate the arguments into a string");
    interp.register("symbol", Builtin::Symbol, "Convert a string to a symbol");
    interp.register("int", Builtin::Int, "Convert a string to an int");
    interp.register("chr", Builtin::Chr, "Convert an integer to its corresponding character in UTF-8");
    interp.register("list", Builtin::List, "Collect the arguments into a list");
    interp.register("cons", Builtin::Cons, "Prepend a value to a list");
    interp.register("nth", Builtin::Nth, "Get the nth value of a sequence");
    interp.register("count", Builtin::Count, "Find the size of a sequence");
    interp.register("assoc", Builtin::Assoc, "Return a table with the additional keys and values put into the given table");
    interp.register("dissoc", Builtin::Dissoc, "Return a table without the specified keys");
    interp.register("first", Builtin::First, "Get the first value of a sequence.");
    interp.register("last", Builtin::Last, "Get the last value of a sequence.");
    interp.register("rest", Builtin::Rest, "Get a copy of a list without its first value");
    interp.register("get", Builtin::Get, "Get the value associated with a given key in a table");
    interp.register("keys", Builtin::Keys, "Get a table's keys as a sequence");
    interp.register("values", Builtin::Values, "Get a table's values as a sequence");
    interp.register("contains?", Builtin::Contains, "Check if a table contains a key");
    interp.register("type", Builtin::Type, "Get the type of a value, as a symbol");
    interp.register("err?", Builtin::TypeIs(TypeTag::Error), "Check if the value is an error");
    interp.register("function?", Builtin::TypeIs(TypeTag::Function), "Check if the value is a function");
    interp.register("atom?", Builtin::TypeIs(TypeTag::Atom), "Check if the value is an atom");
    interp.register("macro?", Builtin::TypeIs(TypeTag::Macro), "Check if the value is a macro");
    interp.register("list?", Builtin::TypeIs(TypeTag::List), "Check if the value is a list");
    interp.register("table?", Builtin::TypeIs(TypeTag::Table), "Check if the value is a table");
    interp.register("nil?", Builtin::TypeIs(TypeTag::Nil), "Check if the value is nil");
    interp.register("bool?", Builtin::TypeIs(TypeTag::Bool), "Check if the value is a boolean");
    interp.register("symbol?", Builtin::TypeIs(TypeTag::Symbol), "Check if the value is a symbol");
    interp.register("int?", Builtin::TypeIs(TypeTag::Int), "Check if the value is an integer");
    interp.register("macro", Builtin::Macro, "Convert a function to a macro. The function should take syntax as an input and produce it as output.");
    interp.register("atom", Builtin::Atom, "Create a new atom with the given value inside it");
    interp.register("set!", Builtin::SetAtom, "Set the value inside an atom, returning the value it held before");
    interp.register("inspect!", Builtin::InspectAtom, "Modify the value in the atom with a function");
    interp.register("doc", Builtin::Doc, "Attach documentation to the next value that is defined");
    interp.register("help", Builtin::Help, "Retrieve the documentation for a function");
    interp.register("quit", Builtin::Quit, "Ask the read-eval-print loop to stop");
    interp.document("\\", "Create a lambda function that accepts the given parameters and returns the result of evaluating the body expression");
    interp.document("if", "If the first value is truthy, evaluate and return the second value. Otherwise, evaluate and return the third value.");
    interp.document("quote", "Return the arguments without evaluating them");
    interp.document("quasiquote", "Return the arguments, only evaluating the parts within a (unquote ...) expression");
    interp.document("err", "Throw an error with the provided information. The first argument is not evaluated and should be an identifier.");
    interp.document("let*", "The first argument is an alternating list of patterns and values. Each value is evaluated in order and bound to its corresponding pattern. Returns the result of evaluating the second argument with the context of the bindings created from the first argument.");
    interp.document("def!", "Define a variable, providing its name and a value");
    interp.document("do", "Evaluate the arguments in order and return the value of the last");
    interp.document("try*", "Attempt to evaluate the first argument. If an exception is thrown, goes to each catch block to recover");
    interp.document("*ARGS*", "Arguments provided in the command line");
    proof {
        crate::types::Value::lemma_list_val(args);
    }
    interp.define(0, "*ARGS*", Value::List(args));
    interp
}

} // verus!

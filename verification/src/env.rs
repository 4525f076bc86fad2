use vstd::prelude::*;
use crate::expression::{Expression, copied};
use crate::text::{chars_eq, copy_chars};

verus! {

/// A variable and its value.
pub struct Binding {
    pub name: Vec<char>,
    pub value: Expression,
}

/// The variables of one scope and the scope around it.
pub struct Frame {
    pub vars: Vec<Binding>,
    pub parent: usize,
}

/// The entries of a hash table or a tree map, kept in ascending order of key.
pub struct Table {
    pub entries: Vec<Binding>,
}

/// What the host found at a path that a program may load.
pub enum FileContent {
    /// A readable text file and its text.
    Text(Vec<char>),
    /// A directory.
    Directory,
    /// A file that could not be read as text.
    Unreadable,
}

/// A path that the host made available to `load-file`, and what it found there.
pub struct SourceFile {
    pub path: Vec<char>,
    pub content: FileContent,
}

/// The state of an interpreter: its scopes, its tables, its flags, the text
/// that `display` has written and that `read` consumes, and the files that
/// `load-file` may read.
pub struct Environment {
    pub frames: Vec<Frame>,
    pub tables: Vec<Table>,
    pub force_stop: bool,
    pub tail_recursion: bool,
    pub output: Vec<char>,
    pub input: Vec<char>,
    pub input_pos: usize,
    pub files: Vec<SourceFile>,
}

/// The names that a scope binds.
pub open spec fn frame_names(f: Frame) -> Seq<Seq<char>> {
    f.vars@.map_values(|b: Binding| b.name@)
}

/// Where `path` first occurs among the files.
pub open spec fn file_index(files: Seq<SourceFile>, path: Seq<char>) -> Option<int>
    decreases files.len(),
{
    if files.len() == 0 {
        None
    } else {
        match file_index(files.drop_last(), path) {
            Some(j) => Some(j),
            None => if files.last().path@ == path { Some(files.len() - 1) } else { None },
        }
    }
}

/// Where `name` is first bound among `vars`.
pub open spec fn var_index(vars: Seq<Binding>, name: Seq<char>) -> Option<int>
    decreases vars.len(),
{
    if vars.len() == 0 {
        None
    } else {
        match var_index(vars.drop_last(), name) {
            Some(j) => Some(j),
            None => if vars.last().name@ == name { Some(vars.len() - 1) } else { None },
        }
    }
}

/// The scope and the place where `name` is found, looking from scope `f`
/// outwards through the enclosing scopes.
pub open spec fn lookup(env: Environment, f: int, name: Seq<char>) -> Option<(int, int)>
    decreases f,
{
    if !(0 <= f < env.frames@.len()) {
        None
    } else {
        match var_index(env.frames@[f].vars@, name) {
            Some(j) => Some((f, j)),
            None => {
                let p = env.frames@[f].parent as int;
                if f > 0 && p < f { lookup(env, p, name) } else { None }
            },
        }
    }
}

/// The value that `name` has, seen from scope `f`.
pub open spec fn value_of(env: Environment, f: int, name: Seq<char>) -> Option<Expression> {
    match lookup(env, f, name) {
        Some((g, j)) => Some(env.frames@[g].vars@[j].value),
        None => None,
    }
}

proof fn lemma_var_index(vars: Seq<Binding>, name: Seq<char>)
    ensures
        match var_index(vars, name) {
            Some(j) => 0 <= j < vars.len() && vars[j].name@ == name
                && forall|k: int| 0 <= k < j ==> #[trigger] vars[k].name@ != name,
            None => forall|k: int| 0 <= k < vars.len() ==> #[trigger] vars[k].name@ != name,
        },
    decreases vars.len(),
{
    if vars.len() > 0 {
        lemma_var_index(vars.drop_last(), name);
        match var_index(vars.drop_last(), name) {
            Some(j) => {
                assert forall|k: int| 0 <= k < j implies #[trigger] vars[k].name@ != name by {
                    assert(vars[k] == vars.drop_last()[k]);
                }
                assert(vars[j] == vars.drop_last()[j]);
            },
            None => {
                assert forall|k: int| 0 <= k < vars.len() - 1 implies #[trigger] vars[k].name@ != name by {
                    assert(vars[k] == vars.drop_last()[k]);
                }
            },
        }
    }
}

/// The first place is the only one that matters: a list whose names up to `j`
/// miss `name` and whose `j`-th binds it has `name` first at `j`.
proof fn lemma_var_index_at(vars: Seq<Binding>, name: Seq<char>, j: int)
    requires
        0 <= j < vars.len(),
        vars[j].name@ == name,
        forall|k: int| 0 <= k < j ==> #[trigger] vars[k].name@ != name,
    ensures
        var_index(vars, name) == Some(j),
    decreases vars.len(),
{
    if j < vars.len() - 1 {
        assert forall|k: int| 0 <= k < j implies #[trigger] vars.drop_last()[k].name@ != name by {
            assert(vars.drop_last()[k] == vars[k]);
        }
        lemma_var_index_at(vars.drop_last(), name, j);
    } else {
        lemma_var_index(vars.drop_last(), name);
        if var_index(vars.drop_last(), name) is Some {
            let i = var_index(vars.drop_last(), name)->0;
            assert(vars[i] == vars.drop_last()[i]);
        }
    }
}

/// A list whose names miss `name` does not bind it.
proof fn lemma_var_index_none(vars: Seq<Binding>, name: Seq<char>)
    requires
        forall|k: int| 0 <= k < vars.len() ==> #[trigger] vars[k].name@ != name,
    ensures
        var_index(vars, name) is None,
{
    lemma_var_index(vars, name);
}

/// Two lists whose names agree place every name alike.
proof fn lemma_var_index_same_names(a: Seq<Binding>, b: Seq<Binding>, n: Seq<char>)
    requires
        a.len() == b.len(),
        forall|k: int| 0 <= k < a.len() ==> (#[trigger] a[k]).name@ == b[k].name@,
    ensures
        var_index(a, n) == var_index(b, n),
    decreases a.len(),
{
    if a.len() > 0 {
        assert forall|k: int| 0 <= k < a.drop_last().len() implies (#[trigger] a.drop_last()[k]).name@ == b.drop_last()[k].name@ by {
            assert(a.drop_last()[k] == a[k]);
            assert(b.drop_last()[k] == b[k]);
        }
        lemma_var_index_same_names(a.drop_last(), b.drop_last(), n);
        assert(a.last().name@ == b.last().name@) by {
            assert(a[a.len() - 1].name@ == b[a.len() - 1].name@);
        }
    }
}

/// A place that `lookup` finds is a binding of the name.
proof fn lemma_lookup_valid(env: Environment, f: int, name: Seq<char>)
    ensures
        match lookup(env, f, name) {
            Some((g, j)) => 0 <= g < env.frames@.len() && 0 <= j < env.frames@[g].vars@.len()
                && env.frames@[g].vars@[j].name@ == name,
            None => true,
        },
    decreases f,
{
    if 0 <= f < env.frames@.len() {
        lemma_var_index(env.frames@[f].vars@, name);
        if var_index(env.frames@[f].vars@, name) is None {
            let p = env.frames@[f].parent as int;
            if f > 0 && p < f {
                lemma_lookup_valid(env, p, name);
            }
        }
    }
}

impl Environment {
    /// Well-formed: there is a global scope (index 0), and every other scope's
    /// enclosing scope comes before it.
    pub open spec fn wf(&self) -> bool {
        &&& self.frames@.len() > 0
        &&& forall|i: int| 0 < i < self.frames@.len() ==> (#[trigger] self.frames@[i]).parent < i
        &&& forall|i: int| 0 <= i < self.tables@.len() ==> crate::table::keys_unique(#[trigger] self.tables@[i].entries@)
    }

    /// An interpreter with an empty global scope, tail calls on and no stop asked.
    pub fn new() -> (env: Environment)
        ensures
            env.wf(),
            env.frames@.len() == 1,
            env.frames@[0].vars@.len() == 0,
            env.tables@.len() == 0,
            !env.force_stop,
            env.tail_recursion,
            env.output@.len() == 0,
            env.files@.len() == 0,
            env.input@.len() == 0,
            env.input_pos == 0,
    {
        let mut frames: Vec<Frame> = Vec::new();
        frames.push(Frame { vars: Vec::new(), parent: 0 });
        Environment {
            frames,
            tables: Vec::new(),
            force_stop: false,
            tail_recursion: true,
            output: Vec::new(),
            input: Vec::new(),
            input_pos: 0,
            files: Vec::new(),
        }
    }

    /// Makes what the host found at `path` available to `load-file`; a later
    /// entry for the same path comes after the earlier one and is not seen.
    pub fn add_file(&mut self, path: Vec<char>, content: FileContent)
        ensures
            final(self).files@ == old(self).files@.push(SourceFile { path, content }),
            final(self).frames@ == old(self).frames@,
            final(self).tables@ == old(self).tables@,
            final(self).force_stop == old(self).force_stop,
            final(self).tail_recursion == old(self).tail_recursion,
    {
        self.files.push(SourceFile { path, content });
    }

    /// Whether evaluation was asked to stop.
    pub fn is_force_stop(&self) -> (r: bool)
        ensures
            r == self.force_stop,
    {
        self.force_stop
    }

    /// Asks evaluation to stop, or lets it go on.
    pub fn set_force_stop(&mut self, b: bool)
        ensures
            final(self).force_stop == b,
            final(self).frames@ == old(self).frames@,
            final(self).tables@ == old(self).tables@,
            final(self).tail_recursion == old(self).tail_recursion,
            final(self).output@ == old(self).output@,
            final(self).input@ == old(self).input@,
            final(self).input_pos == old(self).input_pos,
            final(self).files@ == old(self).files@,
    {
        self.force_stop = b;
    }

    /// Whether tail calls are optimised.
    pub fn is_tail_recursion(&self) -> (r: bool)
        ensures
            r == self.tail_recursion,
    {
        self.tail_recursion
    }

    /// Turns the optimisation of tail calls on or off.
    pub fn set_tail_recursion(&mut self, b: bool)
        ensures
            final(self).tail_recursion == b,
            final(self).frames@ == old(self).frames@,
            final(self).tables@ == old(self).tables@,
            final(self).force_stop == old(self).force_stop,
    {
        self.tail_recursion = b;
    }

    /// Opens a scope inside `parent`, and gives its index.
    pub fn push_frame(&mut self, parent: usize) -> (r: usize)
        requires
            old(self).wf(),
            parent < old(self).frames@.len(),
        ensures
            final(self).wf(),
            r == old(self).frames@.len(),
            final(self).frames@.len() == old(self).frames@.len() + 1,
            final(self).frames@[r as int].parent == parent,
            final(self).frames@[r as int].vars@.len() == 0,
            forall|i: int| 0 <= i < old(self).frames@.len() ==> final(self).frames@[i] == old(self).frames@[i],
            final(self).tables@ == old(self).tables@,
            final(self).force_stop == old(self).force_stop,
    {
        let r = self.frames.len();
        self.frames.push(Frame { vars: Vec::new(), parent });
        r
    }

    /// Where `name` is bound in scope `f` itself.
    fn find_in_frame(&self, f: usize, name: &[char]) -> (r: Option<usize>)
        requires
            f < self.frames@.len(),
        ensures
            match r {
                Some(j) => var_index(self.frames@[f as int].vars@, name@) == Some(j as int),
                None => var_index(self.frames@[f as int].vars@, name@) is None,
            },
    {
        let vars = &self.frames[f].vars;
        let mut j: usize = 0;
        while j < vars.len()
            invariant
                j <= vars@.len(),
                vars == &self.frames@[f as int].vars,
                forall|k: int| 0 <= k < j ==> #[trigger] vars@[k].name@ != name@,
            decreases vars.len() - j,
        {
            if chars_eq(vars[j].name.as_slice(), name) {
                proof {
                    lemma_var_index_at(vars@, name@, j as int);
                }
                return Some(j);
            }
            j = j + 1;
        }
        proof {
            lemma_var_index_none(vars@, name@);
        }
        None
    }

    /// The scope, from `frame` outwards, that binds `name`, and where.
    pub fn locate(&self, frame: usize, name: &[char]) -> (r: Option<(usize, usize)>)
        requires
            self.wf(),
            frame < self.frames@.len(),
        ensures
            match r {
                Some((f, j)) => lookup(*self, frame as int, name@) == Some((f as int, j as int)),
                None => lookup(*self, frame as int, name@) is None,
            },
    {
        let mut f = frame;
        loop
            invariant
                self.wf(),
                f < self.frames@.len(),
                lookup(*self, frame as int, name@) == lookup(*self, f as int, name@),
            decreases f,
        {
            match self.find_in_frame(f, name) {
                Some(j) => { return Some((f, j)); },
                None => {},
            }
            if f == 0 {
                return None;
            }
            f = self.frames[f].parent;
        }
    }

    /// The value of the variable `name` seen from scope `frame`: a copy of the
    /// value of the nearest binding, or `None` where no scope binds it.
    pub fn find(&self, frame: usize, name: &[char]) -> (r: Option<Expression>)
        requires
            self.wf(),
            frame < self.frames@.len(),
        ensures
            match value_of(*self, frame as int, name@) {
                Some(v) => r matches Some(x) && copied(x, v),
                None => r is None,
            },
    {
        proof {
            lemma_lookup_valid(*self, frame as int, name@);
        }
        match self.locate(frame, name) {
            Some((f, j)) => Some(self.frames[f].vars[j].value.copy()),
            None => None,
        }
    }

    /// Binds `name` to `value` in scope `frame`, replacing its binding there if any.
    /// Every other binding stays as it was.
    pub fn regist(&mut self, frame: usize, name: &[char], value: Expression)
        requires
            old(self).wf(),
            frame < old(self).frames@.len(),
        ensures
            final(self).wf(),
            final(self).frames@.len() == old(self).frames@.len(),
            final(self).tables@ == old(self).tables@,
            final(self).force_stop == old(self).force_stop,
            final(self).tail_recursion == old(self).tail_recursion,
            final(self).output@ == old(self).output@,
            value_of(*final(self), frame as int, name@) == Some(value),
            forall|f: int, n: Seq<char>| n != name@ ==> #[trigger] value_of(*final(self), f, n) == value_of(*old(self), f, n),
            forall|i: int| 0 <= i < final(self).frames@.len() && i != frame ==> #[trigger] final(self).frames@[i] == old(self).frames@[i],
            final(self).frames@[frame as int].parent == old(self).frames@[frame as int].parent,
            forall|n: Seq<char>| n != name@ ==> #[trigger] var_index(final(self).frames@[frame as int].vars@, n)
                == var_index(old(self).frames@[frame as int].vars@, n),
            forall|j: int| 0 <= j < old(self).frames@[frame as int].vars@.len()
                && old(self).frames@[frame as int].vars@[j].name@ != name@
                ==> #[trigger] final(self).frames@[frame as int].vars@[j] == old(self).frames@[frame as int].vars@[j],
    {
        let ghost old_vars = self.frames@[frame as int].vars@;
        match self.find_in_frame(frame, name) {
            Some(j) => {
                proof {
                    lemma_var_index(old_vars, name@);
                }
                self.frames[frame].vars[j].value = value;
                proof {
                    let nv = self.frames@[frame as int].vars@;
                    lemma_var_index(old_vars, name@);
                    assert forall|n: Seq<char>| n != name@ implies #[trigger] var_index(nv, n) == var_index(old_vars, n) by {
                        lemma_var_index_same_names(nv, old_vars, n);
                    }
                    lemma_var_index_same_names(nv, old_vars, name@);
                }
            },
            None => {
                let b = Binding { name: copy_chars(name), value };
                self.frames[frame].vars.push(b);
                proof {
                    let nv = self.frames@[frame as int].vars@;
                    assert(nv.drop_last() =~= old_vars);
                    assert forall|n: Seq<char>| n != name@ implies #[trigger] var_index(nv, n) == var_index(old_vars, n) by {
                        lemma_var_index(old_vars, n);
                    }
                    lemma_var_index(old_vars, name@);
                }
            },
        }
        assert forall|i: int| 0 < i < self.frames@.len() implies (#[trigger] self.frames@[i]).parent < i by {
            assert(self.frames@[i].parent == old(self).frames@[i].parent);
        }
        proof {
            assert forall|f: int, n: Seq<char>| n != name@ implies #[trigger] value_of(*self, f, n) == value_of(*old(self), f, n) by {
                assert forall|i: int| 0 <= i < self.frames@.len() implies
                    #[trigger] var_index(self.frames@[i].vars@, n) == var_index(old(self).frames@[i].vars@, n) by {
                    if i != frame {
                        assert(self.frames@[i] == old(self).frames@[i]);
                    }
                }
                lemma_lookup_same_for_name(*self, *old(self), f, n);
                lemma_lookup_valid(*old(self), f, n);
                lemma_var_index(old(self).frames@[frame as int].vars@, n);
            }
        }
    }

    /// Sets the nearest binding of `name` seen from `frame`; false when there is none.
    /// No name is bound anew, and every other binding stays as it was.
    pub fn update(&mut self, frame: usize, name: &[char], value: Expression) -> (r: bool)
        requires
            old(self).wf(),
            frame < old(self).frames@.len(),
        ensures
            final(self).wf(),
            final(self).frames@.len() == old(self).frames@.len(),
            final(self).tables@ == old(self).tables@,
            final(self).force_stop == old(self).force_stop,
            final(self).tail_recursion == old(self).tail_recursion,
            final(self).output@ == old(self).output@,
            r == (lookup(*old(self), frame as int, name@) is Some),
            r ==> value_of(*final(self), frame as int, name@) == Some(value),
            !r ==> *final(self) == *old(self),
            forall|f: int, n: Seq<char>| #[trigger] lookup(*final(self), f, n) == lookup(*old(self), f, n),
    {
        proof {
            lemma_lookup_valid(*self, frame as int, name@);
        }
        match self.locate(frame, name) {
            Some((f, j)) => {
                self.frames[f].vars[j].value = value;
                assert forall|i: int| 0 < i < self.frames@.len() implies (#[trigger] self.frames@[i]).parent < i by {
                    assert(self.frames@[i].parent == old(self).frames@[i].parent);
                }
                proof {
                    assert forall|f2: int, n: Seq<char>| #[trigger] lookup(*self, f2, n) == lookup(*old(self), f2, n) by {
                        lemma_lookup_same_names(*self, *old(self), f2, n);
                    }
                }
                true
            },
            None => false,
        }
    }
}

/// Looking a name up from scope `f` reads only the scopes up to `f`: two
/// interpreters that agree on those give it the same value there.
pub proof fn lemma_value_of_prefix(a: Environment, b: Environment, f: int, n: Seq<char>)
    requires
        0 <= f < a.frames@.len(),
        f < b.frames@.len(),
        forall|i: int| 0 <= i <= f ==> #[trigger] a.frames@[i] == b.frames@[i],
    ensures
        lookup(a, f, n) == lookup(b, f, n),
        value_of(a, f, n) == value_of(b, f, n),
        lookup(a, f, n) matches Some((g, j)) ==> 0 <= g <= f,
    decreases f,
{
    assert(a.frames@[f] == b.frames@[f]);
    let p = a.frames@[f].parent as int;
    if var_index(a.frames@[f].vars@, n) is None && f > 0 && p < f {
        lemma_value_of_prefix(a, b, p, n);
    }
}

/// Two interpreters with the same scopes, each placing `n` alike, look `n` up alike.
proof fn lemma_lookup_same_for_name(a: Environment, b: Environment, f: int, n: Seq<char>)
    requires
        a.frames@.len() == b.frames@.len(),
        forall|i: int| 0 <= i < a.frames@.len() ==> (#[trigger] a.frames@[i]).parent == b.frames@[i].parent,
        forall|i: int| 0 <= i < a.frames@.len() ==> #[trigger] var_index(a.frames@[i].vars@, n) == var_index(b.frames@[i].vars@, n),
    ensures
        lookup(a, f, n) == lookup(b, f, n),
    decreases f,
{
    if 0 <= f < a.frames@.len() {
        assert(var_index(a.frames@[f].vars@, n) == var_index(b.frames@[f].vars@, n));
        let p = a.frames@[f].parent as int;
        if f > 0 && p < f {
            lemma_lookup_same_for_name(a, b, p, n);
        }
    }
}

/// Two interpreters with the same scopes and the same names in each bind every
/// name at the same place.
proof fn lemma_lookup_same_names(a: Environment, b: Environment, f: int, n: Seq<char>)
    requires
        a.frames@.len() == b.frames@.len(),
        forall|i: int| 0 <= i < a.frames@.len() ==> (#[trigger] a.frames@[i]).parent == b.frames@[i].parent,
        forall|i: int| 0 <= i < a.frames@.len() ==> (#[trigger] a.frames@[i]).vars@.len() == b.frames@[i].vars@.len(),
        forall|i: int, k: int| 0 <= i < a.frames@.len() && 0 <= k < a.frames@[i].vars@.len()
            ==> (#[trigger] a.frames@[i].vars@[k]).name@ == b.frames@[i].vars@[k].name@,
    ensures
        lookup(a, f, n) == lookup(b, f, n),
    decreases f,
{
    if 0 <= f < a.frames@.len() {
        assert forall|k: int| 0 <= k < a.frames@[f].vars@.len() implies (#[trigger] a.frames@[f].vars@[k]).name@
            == b.frames@[f].vars@[k].name@ by {}
        lemma_var_index_same_names(a.frames@[f].vars@, b.frames@[f].vars@, n);
        let p = a.frames@[f].parent as int;
        if f > 0 && p < f {
            lemma_lookup_same_names(a, b, p, n);
        }
    }
}

} // verus!

//! Lexically nested, mutable variable scopes.
//!
//! Scopes form a tree held in one arena: each frame names its parent by
//! index, children are read-through and write-local, and a frame outlives
//! the block that created it, so a closure's captured frame stays valid for
//! as long as the whole evaluation session.

use vstd::prelude::*;
use crate::ast::Ident;
use crate::error::Error;
use crate::runtime::{value_view, Value, ValueM};
use crate::function::{Builtin, Function};

verus! {

broadcast use vstd::std_specs::vec::group_vec_axioms;

/// One scope frame: local bindings plus an optional parent frame.
#[derive(Debug, PartialEq)]
pub struct Frame {
    pub parent: Option<usize>,
    pub binds: Vec<(Ident, Value)>,
}

/// Mathematical model of a frame.
pub struct FrameM {
    pub parent: Option<int>,
    pub binds: Seq<(Seq<char>, ValueM)>,
}

/// The arena of scope frames. Frame 0, once made, is the root scope.
#[derive(Debug, PartialEq)]
pub struct Scope {
    pub frames: Vec<Frame>,
}

/// Model of a binding list, pointwise.
pub open spec fn binds_view(bs: Seq<(Ident, Value)>) -> Seq<(Seq<char>, ValueM)>
    decreases bs,
{
    if bs.len() == 0 {
        Seq::empty()
    } else {
        seq![(bs[0].0.0@, value_view(bs[0].1))] + binds_view(bs.subrange(1, bs.len() as int))
    }
}

/// The entries of a binding-list model, pointwise.
pub proof fn lemma_binds_view(bs: Seq<(Ident, Value)>)
    ensures
        binds_view(bs).len() == bs.len(),
        forall|i: int| 0 <= i < bs.len() ==> binds_view(bs)[i] == (
            bs[i].0.0@,
            value_view(bs[i].1),
        ),
    decreases bs,
{
    if bs.len() > 0 {
        lemma_binds_view(bs.subrange(1, bs.len() as int));
        assert forall|i: int| 0 <= i < bs.len() implies binds_view(bs)[i] == (
            bs[i].0.0@,
            value_view(bs[i].1),
        ) by {
            if i > 0 {
                assert(bs.subrange(1, bs.len() as int)[i - 1] == bs[i]);
            }
        }
    }
}

/// Model of a frame.
pub open spec fn frame_view(f: Frame) -> FrameM {
    FrameM {
        parent: match f.parent {
            Some(p) => Some(p as int),
            None => None,
        },
        binds: binds_view(f.binds@),
    }
}

/// Model of the frame arena, pointwise.
pub open spec fn frames_view(fs: Seq<Frame>) -> Seq<FrameM>
    decreases fs,
{
    if fs.len() == 0 {
        Seq::empty()
    } else {
        seq![frame_view(fs[0])] + frames_view(fs.subrange(1, fs.len() as int))
    }
}

/// The entries of a frame-arena model, pointwise.
pub proof fn lemma_frames_view(fs: Seq<Frame>)
    ensures
        frames_view(fs).len() == fs.len(),
        forall|i: int| 0 <= i < fs.len() ==> frames_view(fs)[i] == frame_view(fs[i]),
    decreases fs,
{
    if fs.len() > 0 {
        lemma_frames_view(fs.subrange(1, fs.len() as int));
        assert forall|i: int| 0 <= i < fs.len() implies frames_view(fs)[i] == frame_view(
            fs[i],
        ) by {
            if i > 0 {
                assert(fs.subrange(1, fs.len() as int)[i - 1] == fs[i]);
            }
        }
    }
}

impl View for Scope {
    type V = Seq<FrameM>;

    open spec fn view(&self) -> Seq<FrameM> {
        frames_view(self.frames@)
    }
}

/// Well-formedness of the arena: every frame's parent stands before it, so
/// scope chains are tree-shaped and never cyclic.
pub open spec fn scope_wf(fs: Seq<FrameM>) -> bool {
    forall|i: int|
        0 <= i < fs.len() ==> ((#[trigger] fs[i].parent) matches Some(p) ==> 0 <= p < i)
}

/// First binding of `name` in a binding list, if any.
pub open spec fn find_bind(bs: Seq<(Seq<char>, ValueM)>, name: Seq<char>) -> Option<ValueM>
    decreases bs,
{
    if bs.len() == 0 {
        None
    } else if bs[0].0 == name {
        Some(bs[0].1)
    } else {
        find_bind(bs.subrange(1, bs.len() as int), name)
    }
}

/// Scope lookup: the local bindings of frame `sc` first, then the parent
/// chain; `None` from the root is not an error at this layer.
pub open spec fn lookup(fs: Seq<FrameM>, sc: int, name: Seq<char>) -> Option<ValueM>
    decreases sc,
    when scope_wf(fs) && 0 <= sc < fs.len()
{
    match find_bind(fs[sc].binds, name) {
        Some(v) => Some(v),
        None => match fs[sc].parent {
            Some(p) => lookup(fs, p, name),
            None => None,
        },
    }
}

/// Appending a binding never disturbs an existing one: a name found
/// before is found with the same value after, and a fresh name finds the
/// appended value exactly when it matches.
pub proof fn lemma_find_bind_push(
    bs: Seq<(Seq<char>, ValueM)>,
    k: Seq<char>,
    v: ValueM,
    name: Seq<char>,
)
    ensures
        find_bind(bs.push((k, v)), name) == (match find_bind(bs, name) {
            Some(x) => Some(x),
            None => if k == name {
                Some(v)
            } else {
                None
            },
        }),
    decreases bs,
{
    let ext = bs.push((k, v));
    if bs.len() == 0 {
        assert(ext[0] == (k, v));
        assert(ext.subrange(1, ext.len() as int) =~= Seq::<(Seq<char>, ValueM)>::empty());
        assert(find_bind(ext.subrange(1, ext.len() as int), name) is None);
        assert(find_bind(bs, name) is None);
        if k == name {
            assert(find_bind(ext, name) == Some(v));
        } else {
            assert(find_bind(ext, name) is None);
        }
    } else {
        assert(ext[0] == bs[0]);
        lemma_find_bind_push(bs.subrange(1, bs.len() as int), k, v, name);
        assert(ext.subrange(1, ext.len() as int) =~= bs.subrange(1, bs.len() as int).push(
            (k, v),
        ));
        if bs[0].0 == name {
            assert(find_bind(ext, name) == Some(bs[0].1));
            assert(find_bind(bs, name) == Some(bs[0].1));
        } else {
            assert(find_bind(ext, name) == find_bind(
                bs.subrange(1, bs.len() as int).push((k, v)),
                name,
            ));
            assert(find_bind(bs, name) == find_bind(bs.subrange(1, bs.len() as int), name));
        }
    }
}

/// Prefixes chain: a prefix of a prefix is a prefix.
pub proof fn lemma_prefix_trans(
    a: Seq<(Seq<char>, ValueM)>,
    b: Seq<(Seq<char>, ValueM)>,
    c: Seq<(Seq<char>, ValueM)>,
)
    requires
        a.is_prefix_of(b),
        b.is_prefix_of(c),
    ensures
        a.is_prefix_of(c),
{
    assert(a =~= c.subrange(0, a.len() as int)) by {
        assert forall|i: int| 0 <= i < a.len() implies a[i] == c[i] by {
            assert(a[i] == b.subrange(0, a.len() as int)[i]);
            assert(b[i] == c.subrange(0, b.len() as int)[i]);
        }
    }
}

/// A binding found in a list is found, with the same value, in any
/// extension of it: bindings only ever grow at the end, and the first
/// match scans from the front.
pub proof fn lemma_find_bind_prefix(
    bs: Seq<(Seq<char>, ValueM)>,
    bs2: Seq<(Seq<char>, ValueM)>,
    name: Seq<char>,
)
    requires
        bs.is_prefix_of(bs2),
        find_bind(bs, name) is Some,
    ensures
        find_bind(bs2, name) == find_bind(bs, name),
    decreases bs,
{
    assert(bs[0] == bs2.subrange(0, bs.len() as int)[0]);
    assert(bs2[0] == bs[0]);
    if bs[0].0 != name {
        let t1 = bs.subrange(1, bs.len() as int);
        let t2 = bs2.subrange(1, bs2.len() as int);
        assert(t1.is_prefix_of(t2)) by {
            assert forall|i: int| 0 <= i < t1.len() implies t1[i] == t2.subrange(
                0,
                t1.len() as int,
            )[i] by {
                assert(t1[i] == bs[i + 1]);
                assert(bs[i + 1] == bs2.subrange(0, bs.len() as int)[i + 1]);
                assert(t2[i] == bs2[i + 1]);
            }
        }
        lemma_find_bind_prefix(t1, t2, name);
    }
}

/// First match of `id` in one frame's bindings.
#[verifier::loop_isolation(false)]
fn find_in_binds(bs: &Vec<(Ident, Value)>, id: &Ident) -> (r: Option<Value>)
    ensures
        r matches Some(v) ==> find_bind(binds_view(bs@), id.0@) == Some(v@),
        r is None ==> find_bind(binds_view(bs@), id.0@) is None,
{
    let n = bs.len();
    proof {
        assert(bs@.subrange(0, n as int) =~= bs@);
    }
    let mut i: usize = 0;
    while i < n
        invariant
            i <= n,
            find_bind(binds_view(bs@), id.0@) == find_bind(
                binds_view(bs@.subrange(i as int, n as int)),
                id.0@,
            ),
        decreases n - i,
    {
        proof {
            let suf = bs@.subrange(i as int, n as int);
            lemma_binds_view(suf);
            assert(suf[0] == bs@[i as int]);
            let rest = bs@.subrange(i + 1, n as int);
            lemma_binds_view(rest);
            assert(binds_view(suf).subrange(1, binds_view(suf).len() as int) =~= binds_view(
                rest,
            )) by {
                assert forall|j: int| 0 <= j < suf.len() - 1 implies binds_view(suf).subrange(
                    1,
                    binds_view(suf).len() as int,
                )[j] == binds_view(rest)[j] by {
                    assert(suf[j + 1] == bs@[i + 1 + j]);
                    assert(rest[j] == bs@[i + 1 + j]);
                }
            }
        }
        if bs[i].0.same(id) {
            return Some(bs[i].1.duplicate());
        }
        i = i + 1;
    }
    proof {
        assert(bs@.subrange(n as int, n as int) =~= Seq::<(Ident, Value)>::empty());
        assert(binds_view(Seq::<(Ident, Value)>::empty()) =~= Seq::<(Seq<char>, ValueM)>::empty());
    }
    None
}

impl Scope {
    /// A new arena holding only an empty root frame.
    pub fn bare() -> (r: Scope)
        ensures
            r@.len() == 1,
            r@[0].parent is None,
            r@[0].binds =~= Seq::<(Seq<char>, ValueM)>::empty(),
            scope_wf(r@),
    {
        let mut frames: Vec<Frame> = Vec::new();
        frames.push(Frame { parent: None, binds: Vec::new() });
        let s = Scope { frames };
        proof {
            lemma_frames_view(s.frames@);
            assert(binds_view(Seq::<(Ident, Value)>::empty())
                =~= Seq::<(Seq<char>, ValueM)>::empty());
        }
        s
    }

    /// The top-level scope: a fresh arena whose root frame is populated
    /// with every builtin function and literal. Each evaluation session
    /// gets its own root scope. Every builtin name is bound to its
    /// builtin, every literal to its value; the four names the evaluator
    /// itself resolves -- `or`, `and`, `thresh` and `prob` -- are also
    /// stated as lookups. A library program written in the language itself
    /// extends a fresh root through `stdlib::bootstrap`; the host supplies
    /// that program's tree, the external parser being its source.
    pub fn root() -> (r: Scope)
        ensures
            scope_wf(r@),
            r@.len() == 1,
            forall|j: int|
                0 <= j < crate::stdlib::miniscript::policy_stdlib().len() ==> find_bind(
                    r@[0].binds,
                    crate::stdlib::miniscript::policy_stdlib()[j].0,
                ) == Some(
                    ValueM::Function(
                        Function::Builtin(crate::stdlib::miniscript::policy_stdlib()[j].1),
                    ),
                ),
            forall|j: int|
                0 <= j < crate::stdlib::native_stdlib().len() ==> find_bind(
                    r@[0].binds,
                    crate::stdlib::native_stdlib()[j].0,
                ) == Some(
                    ValueM::Function(Function::Builtin(crate::stdlib::native_stdlib()[j].1)),
                ),
            forall|j: int|
                0 <= j < crate::stdlib::literal_stdlib().len() ==> find_bind(
                    r@[0].binds,
                    crate::stdlib::literal_stdlib()[j].0,
                ) == Some(crate::stdlib::literal_stdlib()[j].1),
            find_bind(r@[0].binds, "likely"@) == Some(
                ValueM::Number(crate::stdlib::miniscript::LIKELY_PROB as int),
            ),
            lookup(r@, 0, "or"@) == Some(ValueM::Function(Function::Builtin(Builtin::Or))),
            lookup(r@, 0, "and"@) == Some(ValueM::Function(Function::Builtin(Builtin::And))),
            lookup(r@, 0, "thresh"@) == Some(
                ValueM::Function(Function::Builtin(Builtin::Thresh)),
            ),
            lookup(r@, 0, "prob"@) == Some(ValueM::Function(Function::Builtin(Builtin::Prob))),
    {
        let mut s = Scope::bare();
        let ghost b0 = s@[0].binds;
        proof {
            assert forall|n: Seq<char>| find_bind(b0, n) is None by {
                assert(b0.len() == 0);
            }
        }
        crate::stdlib::attach_stdlib(&mut s);
        proof {
            crate::stdlib::miniscript::lemma_policy_names_distinct();
            let ps = crate::stdlib::miniscript::policy_stdlib();
            assert(ps[0] == ("or"@, Builtin::Or));
            assert(ps[1] == ("and"@, Builtin::And));
            assert(ps[2] == ("thresh"@, Builtin::Thresh));
            assert(ps[18] == ("prob"@, Builtin::Prob));
        }
        s
    }

    /// The number of frames in the arena.
    pub fn frame_count(&self) -> (r: usize)
        ensures
            r == self@.len(),
    {
        proof {
            lemma_frames_view(self.frames@);
        }
        self.frames.len()
    }

    /// Looks `id` up in frame `sc`, delegating to the parent chain when the
    /// local bindings lack it. Returns a fresh copy of the bound value.
    pub fn get(&self, sc: usize, id: &Ident) -> (r: Option<Value>)
        requires
            scope_wf(self@),
            sc < self@.len(),
        ensures
            r matches Some(v) ==> lookup(self@, sc as int, id.0@) == Some(v@),
            r is None ==> lookup(self@, sc as int, id.0@) is None,
        decreases sc,
    {
        proof {
            lemma_frames_view(self.frames@);
        }
        let fr = &self.frames[sc];
        match find_in_binds(&fr.binds, id) {
            Some(v) => Some(v),
            None => {
                match fr.parent {
                    Some(p) => {
                        proof {
                            assert(self@[sc as int].parent matches Some(q) && q == p as int);
                        }
                        self.get(p, id)
                    },
                    None => None,
                }
            },
        }
    }

    /// Binds `id` to `value` in frame `sc`. A second binding of a name
    /// already bound in the same frame is rejected; bindings in other
    /// frames, including ancestors, are untouched and may be shadowed.
    pub fn set(&mut self, sc: usize, id: Ident, value: Value) -> (r: Result<(), Error>)
        requires
            scope_wf(old(self)@),
            sc < old(self)@.len(),
        ensures
            scope_wf(final(self)@),
            final(self)@.len() == old(self)@.len(),
            r is Ok <==> find_bind(old(self)@[sc as int].binds, id.0@) is None,
            r is Ok ==> {
                &&& final(self)@[sc as int].binds == old(self)@[sc as int].binds.push(
                    (id.0@, value@),
                )
                &&& final(self)@[sc as int].parent == old(self)@[sc as int].parent
                &&& forall|i: int|
                    0 <= i < old(self)@.len() && i != sc ==> final(self)@[i] == old(self)@[i]
            },
            r matches Err(e) ==> final(self)@ == old(self)@ && e@ == crate::error::ErrorM::DuplicateBinding(id.0@),
    {
        proof {
            lemma_frames_view(self.frames@);
        }
        let dup = {
            let fr = &self.frames[sc];
            match find_in_binds(&fr.binds, &id) {
                Some(_) => true,
                None => false,
            }
        };
        if dup {
            return Err(Error::DuplicateBinding(id));
        }
        let ghost old_frames = self.frames@;
        self.frames[sc].binds.push((id, value));
        proof {
            lemma_frames_view(self.frames@);
            lemma_frames_view(old_frames);
            assert forall|i: int| 0 <= i < old_frames.len() && i != sc implies frames_view(
                self.frames@,
            )[i] == frames_view(old_frames)[i] by {
                assert(self.frames@[i] == old_frames[i]);
            }
            let ob = old_frames[sc as int].binds@;
            let nb = self.frames@[sc as int].binds@;
            assert(nb =~= ob.push((id, value)));
            lemma_binds_view(ob);
            lemma_binds_view(nb);
            assert(binds_view(nb) =~= binds_view(ob).push((id.0@, value@)));
            assert forall|i: int|
                0 <= i < frames_view(self.frames@).len() implies ((#[trigger] frames_view(
                self.frames@,
            )[i].parent) matches Some(p) ==> 0 <= p < i) by {
                assert(scope_wf(frames_view(old_frames)));
                assert(frames_view(old_frames)[i] == frame_view(old_frames[i]));
                if i != sc {
                    assert(frames_view(self.frames@)[i] == frames_view(old_frames)[i]);
                } else {
                    assert(frames_view(self.frames@)[i] == frame_view(self.frames@[i]));
                    assert(self.frames@[i].parent == old_frames[i].parent);
                }
            }
        }
        Ok(())
    }

    /// A new scope frame whose parent is `parent`; returns its index. Used
    /// for block evaluation and function-call activation records.
    pub fn child(&mut self, parent: usize) -> (r: usize)
        requires
            scope_wf(old(self)@),
            parent < old(self)@.len(),
        ensures
            scope_wf(final(self)@),
            r == old(self)@.len(),
            final(self)@.len() == old(self)@.len() + 1,
            forall|i: int| 0 <= i < old(self)@.len() ==> final(self)@[i] == old(self)@[i],
            final(self)@[r as int].parent == Some(parent as int),
            final(self)@[r as int].binds =~= Seq::<(Seq<char>, ValueM)>::empty(),
    {
        let r = self.frames.len();
        let ghost old_frames = self.frames@;
        self.frames.push(Frame { parent: Some(parent), binds: Vec::new() });
        proof {
            lemma_frames_view(self.frames@);
            lemma_frames_view(old_frames);
            assert forall|i: int| 0 <= i < old_frames.len() implies frames_view(self.frames@)[i]
                == frames_view(old_frames)[i] by {
                assert(self.frames@[i] == old_frames[i]);
            }
            assert(binds_view(Seq::<(Ident, Value)>::empty())
                =~= Seq::<(Seq<char>, ValueM)>::empty());
            assert forall|i: int|
                0 <= i < frames_view(self.frames@).len() implies ((#[trigger] frames_view(
                self.frames@,
            )[i].parent) matches Some(p) ==> 0 <= p < i) by {
                if i < old_frames.len() {
                    assert(frames_view(self.frames@)[i] == frames_view(old_frames)[i]);
                    assert(scope_wf(frames_view(old_frames)));
                    assert(frames_view(old_frames)[i] == frame_view(old_frames[i]));
                } else {
                    assert(frames_view(self.frames@)[i] == frame_view(self.frames@[i]));
                }
            }
        }
        r
    }

    /// Binds a builtin function under `name` in frame `sc`.
    pub fn set_fn(&mut self, sc: usize, name: &str, b: Builtin) -> (r: Result<(), Error>)
        requires
            scope_wf(old(self)@),
            sc < old(self)@.len(),
        ensures
            scope_wf(final(self)@),
            final(self)@.len() == old(self)@.len(),
            r is Ok <==> find_bind(old(self)@[sc as int].binds, name@) is None,
            r is Ok ==> {
                &&& final(self)@[sc as int].binds == old(self)@[sc as int].binds.push(
                    (name@, ValueM::Function(Function::Builtin(b))),
                )
                &&& final(self)@[sc as int].parent == old(self)@[sc as int].parent
                &&& forall|i: int|
                    0 <= i < old(self)@.len() && i != sc ==> final(self)@[i] == old(self)@[i]
            },
            r is Err ==> final(self)@ == old(self)@,
    {
        let id = Ident(name.to_owned());
        self.set(sc, id, Value::Function(Function::Builtin(b)))
    }
}

} // verus!

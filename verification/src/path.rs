//! Pure path algebra: a lexical model of filesystem paths as component
//! sequences, and the relative-path computation used to normalize candidate
//! paths against a project root. Nothing here touches the filesystem; the
//! functions operate on the component sequences as given.

use vstd::prelude::*;

verus! {

/// Ghost model of one path component.
pub ghost enum Seg {
    /// The leading `/` of an absolute path.
    Root,
    /// A literal `.` component.
    Cur,
    /// A literal `..` component.
    Parent,
    /// A named segment.
    Name(Seq<char>),
}

/// One component of a filesystem path, after the usual lexical split.
pub enum Component {
    RootDir,
    CurDir,
    ParentDir,
    Normal(String),
}

impl View for Component {
    type V = Seg;

    open spec fn view(&self) -> Seg {
        match self {
            Component::RootDir => Seg::Root,
            Component::CurDir => Seg::Cur,
            Component::ParentDir => Seg::Parent,
            Component::Normal(s) => Seg::Name(s@),
        }
    }
}

impl Component {
    /// Component equality, decided by contents (named segments compare by
    /// their characters).
    pub fn eq_component(&self, other: &Component) -> (r: bool)
        ensures
            r == (self@ == other@),
    {
        match (self, other) {
            (Component::RootDir, Component::RootDir) => true,
            (Component::CurDir, Component::CurDir) => true,
            (Component::ParentDir, Component::ParentDir) => true,
            (Component::Normal(a), Component::Normal(b)) => a.eq(b),
            _ => false,
        }
    }

    /// A copy with the same contents.
    pub fn clone_component(&self) -> (r: Component)
        ensures
            r@ == self@,
    {
        match self {
            Component::RootDir => Component::RootDir,
            Component::CurDir => Component::CurDir,
            Component::ParentDir => Component::ParentDir,
            Component::Normal(s) => Component::Normal(s.clone()),
        }
    }
}

/// A filesystem path, held as its sequence of lexical components.
pub struct FilePath {
    components: Vec<Component>,
}

impl View for FilePath {
    type V = Seq<Seg>;

    closed spec fn view(&self) -> Seq<Seg> {
        Seq::new(self.components@.len(), |i: int| self.components@[i]@)
    }
}

/// A path is absolute when it begins with the root component.
pub open spec fn path_is_absolute(p: Seq<Seg>) -> bool {
    p.len() > 0 && p[0] is Root
}

impl FilePath {
    /// The empty (relative) path.
    pub fn new() -> (r: FilePath)
        ensures
            r@ =~= Seq::<Seg>::empty(),
    {
        FilePath { components: Vec::new() }
    }

    /// The root path `/`.
    pub fn root() -> (r: FilePath)
        ensures
            r@ =~= seq![Seg::Root],
    {
        let mut components: Vec<Component> = Vec::new();
        components.push(Component::RootDir);
        FilePath { components }
    }

    /// Appends a named segment.
    pub fn push_normal(&mut self, seg: String)
        ensures
            final(self)@ =~= old(self)@.push(Seg::Name(seg@)),
    {
        self.components.push(Component::Normal(seg));
    }

    /// Appends a `.` component.
    pub fn push_cur(&mut self)
        ensures
            final(self)@ =~= old(self)@.push(Seg::Cur),
    {
        self.components.push(Component::CurDir);
    }

    /// Appends a `..` component.
    pub fn push_parent(&mut self)
        ensures
            final(self)@ =~= old(self)@.push(Seg::Parent),
    {
        self.components.push(Component::ParentDir);
    }

    pub fn len(&self) -> (r: usize)
        ensures
            r == self@.len(),
    {
        self.components.len()
    }

    pub fn is_absolute(&self) -> (r: bool)
        ensures
            r == path_is_absolute(self@),
    {
        if self.components.len() == 0 {
            false
        } else {
            matches!(self.components[0], Component::RootDir)
        }
    }

    /// A copy with the same components.
    pub fn clone_path(&self) -> (r: FilePath)
        ensures
            r@ =~= self@,
    {
        let mut components: Vec<Component> = Vec::new();
        let mut i: usize = 0;
        while i < self.components.len()
            invariant
                i <= self.components@.len(),
                components@.len() == i as int,
                forall|k: int| 0 <= k < i ==> components@[k]@ == self.components@[k]@,
            decreases self.components@.len() - i,
        {
            components.push(self.components[i].clone_component());
            i = i + 1;
        }
        FilePath { components }
    }

    /// Path equality, decided by contents.
    pub fn path_eq(&self, other: &FilePath) -> (r: bool)
        ensures
            r == (self@ == other@),
    {
        if self.components.len() != other.components.len() {
            proof {
                assert(self@.len() != other@.len());
            }
            return false;
        }
        let mut i: usize = 0;
        while i < self.components.len()
            invariant
                i <= self.components@.len(),
                self.components@.len() == other.components@.len(),
                forall|k: int| 0 <= k < i ==> self@[k] == other@[k],
            decreases self.components@.len() - i,
        {
            if !self.components[i].eq_component(&other.components[i]) {
                proof {
                    assert(self@[i as int] != other@[i as int]);
                }
                return false;
            }
            i = i + 1;
        }
        proof {
            assert(self@ =~= other@);
        }
        true
    }
}

/// Lock-step walk over the components of `path` and `base`, once both are
/// known to agree in absoluteness. `emitted` records whether any output
/// component has been produced yet: identical leading components are consumed
/// silently only before the first emission.
pub open spec fn rel_walk(path: Seq<Seg>, base: Seq<Seg>, emitted: bool) -> Option<Seq<Seg>>
    decreases path.len() + base.len(),
{
    if path.len() == 0 && base.len() == 0 {
        Some(Seq::<Seg>::empty())
    } else if base.len() == 0 {
        Some(path)
    } else if path.len() == 0 {
        // one parent step per remaining base component
        Some(parents(base.len() as int))
    } else if !emitted && path[0] == base[0] {
        rel_walk(path.drop_first(), base.drop_first(), false)
    } else if base[0] is Cur {
        match rel_walk(path.drop_first(), base.drop_first(), true) {
            Some(rest) => Some(seq![path[0]] + rest),
            None => None,
        }
    } else if base[0] is Parent {
        None
    } else {
        Some(parents(base.len() as int) + path)
    }
}

/// The relative path from `base` to `path`: what `path_relative_from`
/// returns. If the two differ in absoluteness, the result is `path` verbatim
/// when `path` is absolute, and no relative path exists otherwise.
pub open spec fn spec_relative_path(path: Seq<Seg>, base: Seq<Seg>) -> Option<Seq<Seg>> {
    if path_is_absolute(path) != path_is_absolute(base) {
        if path_is_absolute(path) {
            Some(path)
        } else {
            None
        }
    } else {
        rel_walk(path, base, false)
    }
}

/// Composes an already-emitted prefix with the outcome of the remaining walk.
pub open spec fn walk_compose(prefix: Seq<Seg>, rest: Option<Seq<Seg>>) -> Option<Seq<Seg>> {
    match rest {
        Some(r) => Some(prefix + r),
        None => None,
    }
}

/// The components emitted so far, as their ghost models.
pub open spec fn comps_view(s: Seq<Component>) -> Seq<Seg> {
    Seq::new(s.len(), |k: int| s[k]@)
}

/// `k` parent steps in a row.
pub open spec fn parents(k: int) -> Seq<Seg> {
    Seq::new(k as nat, |i: int| Seg::Parent)
}

proof fn lemma_rel_walk_none_has_parent(path: Seq<Seg>, base: Seq<Seg>, emitted: bool)
    ensures
        rel_walk(path, base, emitted) is None ==> exists|j: int|
            0 <= j < base.len() && base[j] is Parent,
    decreases path.len() + base.len(),
{
    if path.len() == 0 || base.len() == 0 {
    } else if !emitted && path[0] == base[0] {
        lemma_rel_walk_none_has_parent(path.drop_first(), base.drop_first(), false);
        if rel_walk(path, base, emitted) is None {
            let j = choose|j: int|
                0 <= j < base.drop_first().len() && base.drop_first()[j] is Parent;
            assert(base[j + 1] is Parent);
        }
    } else if base[0] is Cur {
        lemma_rel_walk_none_has_parent(path.drop_first(), base.drop_first(), true);
        if rel_walk(path, base, emitted) is None {
            let j = choose|j: int|
                0 <= j < base.drop_first().len() && base.drop_first()[j] is Parent;
            assert(base[j + 1] is Parent);
        }
    } else if base[0] is Parent {
        assert(base[0] is Parent);
    } else {
    }
}

/// When no relative path exists. With mixed absoluteness the operation fails
/// exactly when the path is the relative one; with matching absoluteness it
/// can fail only on a `..` in the base, so a base free of parent components
/// always yields a result.
pub proof fn lemma_relative_path_failure(path: Seq<Seg>, base: Seq<Seg>)
    ensures
        path_is_absolute(path) != path_is_absolute(base) ==> (spec_relative_path(path, base)
            is None <==> !path_is_absolute(path)),
        (path_is_absolute(path) == path_is_absolute(base) && spec_relative_path(path, base)
            is None) ==> exists|j: int| 0 <= j < base.len() && base[j] is Parent,
        (path_is_absolute(path) == path_is_absolute(base) && (forall|j: int|
            0 <= j < base.len() ==> !(base[j] is Parent))) ==> spec_relative_path(path, base)
            is Some,
{
    lemma_rel_walk_none_has_parent(path, base, false);
}

/// Lexical canonicalization, from the left over the given accumulator: `.`
/// vanishes, `..` pops a named segment off the end when one is there and
/// stays otherwise, and everything else is appended.
pub open spec fn normalize_from(acc: Seq<Seg>, p: Seq<Seg>) -> Seq<Seg>
    decreases p.len(),
{
    if p.len() == 0 {
        acc
    } else {
        let next = if p[0] is Cur {
            acc
        } else if p[0] is Parent {
            if acc.len() > 0 && acc.last() is Name {
                acc.drop_last()
            } else {
                acc.push(Seg::Parent)
            }
        } else {
            acc.push(p[0])
        };
        normalize_from(next, p.drop_first())
    }
}

/// Lexical canonicalization of a whole path.
pub open spec fn normalize(p: Seq<Seg>) -> Seq<Seg> {
    normalize_from(Seq::<Seg>::empty(), p)
}

proof fn lemma_normalize_clean(acc: Seq<Seg>, p: Seq<Seg>)
    requires
        forall|i: int| 0 <= i < p.len() ==> !(p[i] is Cur) && !(p[i] is Parent),
    ensures
        normalize_from(acc, p) == acc + p,
    decreases p.len(),
{
    if p.len() == 0 {
        assert(acc + p =~= acc);
    } else {
        assert(!(p[0] is Cur) && !(p[0] is Parent));
        let p1 = p.drop_first();
        assert(forall|i: int| 0 <= i < p1.len() ==> p1[i] == p[i + 1]);
        lemma_normalize_clean(acc.push(p[0]), p1);
        assert(acc.push(p[0]) + p1 =~= acc + p);
    }
}

proof fn lemma_normalize_pops(acc: Seq<Seg>, k: int, rest: Seq<Seg>)
    requires
        0 <= k <= acc.len(),
        forall|i: int| acc.len() - k <= i < acc.len() ==> acc[i] is Name,
    ensures
        normalize_from(acc, parents(k) + rest) == normalize_from(acc.take(acc.len() - k), rest),
    decreases k,
{
    if k == 0 {
        assert(parents(0) + rest =~= rest);
        assert(acc.take(acc.len() as int) =~= acc);
    } else {
        let q = parents(k) + rest;
        assert(q[0] == Seg::Parent);
        assert(acc.last() is Name);
        assert(q.drop_first() =~= parents(k - 1) + rest);
        lemma_normalize_pops(acc.drop_last(), k - 1, rest);
        assert(acc.drop_last().take(acc.len() - k) =~= acc.take(acc.len() - k));
    }
}

proof fn lemma_walk_round_trip(c: Seq<Seg>, p: Seq<Seg>, bb: Seq<Seg>)
    requires
        forall|i: int| 0 <= i < p.len() ==> !(p[i] is Root),
        forall|i: int| 0 <= i < bb.len() ==> bb[i] is Name,
        forall|i: int| 0 <= i < c.len() ==> !(c[i] is Cur) && !(c[i] is Parent),
    ensures
        rel_walk(p, bb, false) matches Some(r) && normalize(c + bb + r) == normalize_from(c, p),
    decreases p.len() + bb.len(),
{
    if p.len() == 0 && bb.len() == 0 {
        assert(rel_walk(p, bb, false) == Some(Seq::<Seg>::empty()));
        assert(c + bb + Seq::<Seg>::empty() =~= c);
        lemma_normalize_clean(Seq::<Seg>::empty(), c);
        assert(Seq::<Seg>::empty() + c =~= c);
    } else if bb.len() == 0 {
        assert(rel_walk(p, bb, false) == Some(p));
        assert(c + bb + p =~= c + p);
        lemma_normalize_split(c, p);
        lemma_normalize_clean(Seq::<Seg>::empty(), c);
        assert(Seq::<Seg>::empty() + c =~= c);
    } else if p.len() == 0 {
        assert(rel_walk(p, bb, false) == Some(parents(bb.len() as int)));
        let whole = c + bb + parents(bb.len() as int);
        assert(whole =~= (c + bb) + parents(bb.len() as int) + Seq::<Seg>::empty());
        lemma_normalize_clean(Seq::<Seg>::empty(), c + bb);
        assert(Seq::<Seg>::empty() + (c + bb) =~= c + bb);
        lemma_normalize_split(c + bb, parents(bb.len() as int) + Seq::<Seg>::empty());
        assert(parents(bb.len() as int) + Seq::<Seg>::empty() =~= parents(bb.len() as int));
        lemma_normalize_pops(c + bb, bb.len() as int, Seq::<Seg>::empty());
        assert((c + bb).take(c.len() as int) =~= c);
    } else if p[0] == bb[0] {
        let c2 = c.push(p[0]);
        let p1 = p.drop_first();
        let b1 = bb.drop_first();
        assert(forall|i: int| 0 <= i < p1.len() ==> p1[i] == p[i + 1]);
        assert(forall|i: int| 0 <= i < b1.len() ==> b1[i] == bb[i + 1]);
        assert(p[0] is Name);
        lemma_walk_round_trip(c2, p1, b1);
        let r = rel_walk(p1, b1, false)->Some_0;
        assert(rel_walk(p, bb, false) == Some(r));
        assert(c2 + b1 + r =~= c + bb + r);
        assert(normalize_from(c, p) == normalize_from(c2, p1));
    } else {
        assert(bb[0] is Name);
        assert(rel_walk(p, bb, false) == Some(parents(bb.len() as int) + p));
        let whole = c + bb + (parents(bb.len() as int) + p);
        assert(whole =~= (c + bb) + (parents(bb.len() as int) + p));
        lemma_normalize_split(c + bb, parents(bb.len() as int) + p);
        lemma_normalize_clean(Seq::<Seg>::empty(), c + bb);
        assert(Seq::<Seg>::empty() + (c + bb) =~= c + bb);
        lemma_normalize_pops(c + bb, bb.len() as int, p);
        assert((c + bb).take(c.len() as int) =~= c);
    }
}

proof fn lemma_normalize_split(a: Seq<Seg>, b: Seq<Seg>)
    ensures
        normalize_from(Seq::<Seg>::empty(), a + b) == normalize_from(
            normalize_from(Seq::<Seg>::empty(), a),
            b,
        ),
{
    lemma_normalize_from_split(Seq::<Seg>::empty(), a, b);
}

proof fn lemma_normalize_from_split(acc: Seq<Seg>, a: Seq<Seg>, b: Seq<Seg>)
    ensures
        normalize_from(acc, a + b) == normalize_from(normalize_from(acc, a), b),
    decreases a.len(),
{
    if a.len() == 0 {
        assert(a + b =~= b);
    } else {
        assert((a + b)[0] == a[0]);
        assert((a + b).drop_first() =~= a.drop_first() + b);
        let next = if a[0] is Cur {
            acc
        } else if a[0] is Parent {
            if acc.len() > 0 && acc.last() is Name {
                acc.drop_last()
            } else {
                acc.push(Seg::Parent)
            }
        } else {
            acc.push(a[0])
        };
        lemma_normalize_from_split(next, a.drop_first(), b);
    }
}

/// The round trip: against an absolute canonical base (root plus named
/// segments only) a relative path always exists for any absolute target,
/// and joining it back onto the base and canonicalizing yields the
/// canonicalized target — the target itself when it is canonical too.
pub proof fn lemma_relative_path_round_trip(b: Seq<Seg>, a: Seq<Seg>)
    requires
        path_is_absolute(a),
        path_is_absolute(b),
        forall|i: int| 1 <= i < a.len() ==> a[i] is Name,
        forall|i: int| 1 <= i < b.len() ==> !(b[i] is Root),
    ensures
        spec_relative_path(b, a) matches Some(r) && normalize(spec_join(a, r)) == normalize(b),
        (forall|i: int| 1 <= i < b.len() ==> b[i] is Name) ==> normalize(b) == b,
{
    let pp = b.drop_first();
    let aa = a.drop_first();
    assert(forall|i: int| 0 <= i < pp.len() ==> pp[i] == b[i + 1]);
    assert(forall|i: int| 0 <= i < aa.len() ==> aa[i] == a[i + 1]);
    assert(b[0] == a[0]);
    lemma_walk_round_trip(seq![Seg::Root], pp, aa);
    let r = rel_walk(pp, aa, false)->Some_0;
    assert(rel_walk(b, a, false) == Some(r));
    assert(spec_relative_path(b, a) == Some(r));
    assert(seq![Seg::Root] + aa + r =~= a + r);
    assert(seq![Seg::Root] + pp =~= b);
    // the result starts with a parent step or a segment of the target, so
    // joining appends it
    lemma_rel_walk_first_not_root(pp, aa, false);
    assert(!path_is_absolute(r));
    assert(spec_join(a, r) == a + r);
    assert(normalize(b) == normalize_from(seq![Seg::Root], pp)) by {
        assert(b[0] is Root);
        assert(Seq::<Seg>::empty().push(b[0]) =~= seq![Seg::Root]);
    }
    if forall|i: int| 1 <= i < b.len() ==> b[i] is Name {
        lemma_normalize_clean(Seq::<Seg>::empty(), b);
        assert(Seq::<Seg>::empty() + b =~= b);
    }
}

proof fn lemma_rel_walk_first_not_root(path: Seq<Seg>, base: Seq<Seg>, emitted: bool)
    requires
        forall|i: int| 0 <= i < path.len() ==> !(path[i] is Root),
        forall|i: int| 0 <= i < base.len() ==> base[i] is Name,
    ensures
        rel_walk(path, base, emitted) matches Some(r) ==> !(r.len() > 0 && r[0] is Root),
    decreases path.len() + base.len(),
{
    if path.len() == 0 && base.len() == 0 {
    } else if base.len() == 0 {
        assert(!(path[0] is Root));
    } else if path.len() == 0 {
        if base.len() > 0 {
            assert(parents(base.len() as int)[0] == Seg::Parent);
        }
    } else if !emitted && path[0] == base[0] {
        let p1 = path.drop_first();
        let b1 = base.drop_first();
        assert(forall|i: int| 0 <= i < p1.len() ==> p1[i] == path[i + 1]);
        assert(forall|i: int| 0 <= i < b1.len() ==> b1[i] == base[i + 1]);
        lemma_rel_walk_first_not_root(p1, b1, false);
    } else if base[0] is Cur {
        assert(false);
    } else if base[0] is Parent {
        assert(false);
    } else {
        assert((parents(base.len() as int) + path)[0] == Seg::Parent);
    }
}

/// The text of one component: `/`, `.`, `..`, or the segment's name.
pub open spec fn seg_text(s: Seg) -> Seq<char> {
    match s {
        Seg::Root => seq!['/'],
        Seg::Cur => seq!['.'],
        Seg::Parent => seq!['.', '.'],
        Seg::Name(t) => t,
    }
}

/// Renders the components after the first: a `/` separator goes before each,
/// except directly after the root component (which is its own separator).
pub open spec fn render_rest(p: Seq<Seg>, after_root: bool) -> Seq<char>
    decreases p.len(),
{
    if p.len() == 0 {
        Seq::<char>::empty()
    } else {
        (if after_root {
            seg_text(p[0])
        } else {
            seq!['/'] + seg_text(p[0])
        }) + render_rest(p.drop_first(), false)
    }
}

/// The textual form of a path: components joined by `/`, with the root
/// component rendered as the leading `/` itself.
pub open spec fn render_path(p: Seq<Seg>) -> Seq<char> {
    if p.len() == 0 {
        Seq::<char>::empty()
    } else {
        seg_text(p[0]) + render_rest(p.drop_first(), p[0] is Root)
    }
}

proof fn lemma_render_rest_snoc(p: Seq<Seg>, s: Seg, after_root: bool)
    ensures
        render_rest(p.push(s), after_root) =~= render_rest(p, after_root) + (if p.len() == 0
            && after_root {
            Seq::<char>::empty()
        } else {
            seq!['/']
        }) + seg_text(s),
    decreases p.len(),
{
    if p.len() == 0 {
        assert(p.push(s)[0] == s);
        assert(p.push(s).drop_first() =~= Seq::<Seg>::empty());
        assert(render_rest(Seq::<Seg>::empty(), false) =~= Seq::<char>::empty());
        assert(render_rest(p.push(s), after_root) =~= (if after_root {
            seg_text(s)
        } else {
            seq!['/'] + seg_text(s)
        }));
    } else {
        assert(p.push(s).drop_first() =~= p.drop_first().push(s));
        lemma_render_rest_snoc(p.drop_first(), s, false);
        assert(p.push(s)[0] == p[0]);
    }
}

/// Appending one component appends its text, preceded by a separator unless
/// the path so far is empty or is just the root.
pub proof fn lemma_render_snoc(p: Seq<Seg>, s: Seg)
    ensures
        render_path(p.push(s)) =~= render_path(p) + (if p.len() == 0 || (p.len() == 1 && p[0]
            is Root) {
            Seq::<char>::empty()
        } else {
            seq!['/']
        }) + seg_text(s),
{
    if p.len() == 0 {
        assert(p.push(s)[0] == s);
        assert(p.push(s).drop_first() =~= Seq::<Seg>::empty());
        assert(render_rest(Seq::<Seg>::empty(), true) =~= Seq::<char>::empty());
        assert(render_rest(Seq::<Seg>::empty(), false) =~= Seq::<char>::empty());
    } else {
        assert(p.push(s)[0] == p[0]);
        assert(p.push(s).drop_first() =~= p.drop_first().push(s));
        lemma_render_rest_snoc(p.drop_first(), s, p[0] is Root);
    }
}

impl FilePath {
    /// The textual form of the path, with `/` separators.
    pub fn to_string(&self) -> (r: String)
        ensures
            r@ == render_path(self@),
    {
        proof {
            reveal_strlit("/");
            reveal_strlit(".");
            reveal_strlit("..");
        }
        let mut out = String::new();
        let first_is_root = self.components.len() > 0 && matches!(
            self.components[0],
            Component::RootDir,
        );
        let mut i: usize = 0;
        proof {
            assert(self@.take(0) =~= Seq::<Seg>::empty());
        }
        while i < self.components.len()
            invariant
                i <= self.components@.len(),
                self@.len() == self.components@.len(),
                first_is_root == (self@.len() > 0 && self@[0] is Root),
                out@ == render_path(self@.take(i as int)),
            decreases self.components@.len() - i,
        {
            proof {
                reveal_strlit("/");
                reveal_strlit(".");
                reveal_strlit("..");
                assert(self@[i as int] == self.components@[i as int]@);
                assert(self@.take(i + 1) =~= self@.take(i as int).push(self@[i as int]));
                lemma_render_snoc(self@.take(i as int), self@[i as int]);
                if i > 0 {
                    assert(self@.take(i as int)[0] == self@[0]);
                }
            }
            if i > 0 && !(i == 1 && first_is_root) {
                out.append("/");
            }
            match &self.components[i] {
                Component::RootDir => out.append("/"),
                Component::CurDir => out.append("."),
                Component::ParentDir => out.append(".."),
                Component::Normal(s) => out.append(s.as_str()),
            }
            i = i + 1;
            proof {
                assert(out@ =~= render_path(self@.take(i as int)));
            }
        }
        proof {
            assert(self@.take(self.components@.len() as int) =~= self@);
        }
        out
    }

    /// Joining: an absolute `other` replaces `self`; a relative one is
    /// appended to it.
    pub fn join(&self, other: &FilePath) -> (r: FilePath)
        ensures
            r@ == spec_join(self@, other@),
    {
        if other.is_absolute() {
            other.clone_path()
        } else {
            let mut out = self.clone_path();
            let mut i: usize = 0;
            while i < other.components.len()
                invariant
                    i <= other.components@.len(),
                    other@.len() == other.components@.len(),
                    out@ =~= self@ + other@.take(i as int),
                decreases other.components@.len() - i,
            {
                proof {
                    assert(other@[i as int] == other.components@[i as int]@);
                    assert((self@ + other@.take(i + 1)) =~= (self@ + other@.take(
                        i as int,
                    )).push(other@[i as int]));
                }
                out.components.push(other.components[i].clone_component());
                i = i + 1;
                proof {
                    assert(out@ =~= self@ + other@.take(i as int));
                }
            }
            proof {
                assert(self@ + other@.take(other@.len() as int) =~= self@ + other@);
            }
            out
        }
    }
}

/// What joining yields: `other` verbatim when absolute, `self` then `other`
/// when relative.
pub open spec fn spec_join(a: Seq<Seg>, b: Seq<Seg>) -> Seq<Seg> {
    if path_is_absolute(b) {
        b
    } else {
        a + b
    }
}

/// Gets the relative path from one path to another, if it exists: identical
/// leading components are consumed, then one parent step is emitted for every
/// remaining component of `base` and the remaining components of `path`
/// follow verbatim. A `..` in `base` at the point of comparison makes the
/// result undecidable, so no path is returned.
pub fn path_relative_from(path: &FilePath, base: &FilePath) -> (r: Option<FilePath>)
    ensures
        match r {
            Some(p) => spec_relative_path(path@, base@) == Some(p@),
            None => spec_relative_path(path@, base@) is None,
        },
{
    if path.is_absolute() != base.is_absolute() {
        if path.is_absolute() {
            Some(path.clone_path())
        } else {
            None
        }
    } else {
        let n = path.components.len();
        let m = base.components.len();
        let mut comps: Vec<Component> = Vec::new();
        let mut i: usize = 0;
        let mut j: usize = 0;
        proof {
            assert(path@.skip(0) =~= path@);
            assert(base@.skip(0) =~= base@);
            match rel_walk(path@, base@, false) {
                Some(r) => {
                    assert(comps_view(comps@) + r =~= r);
                },
                None => {},
            }
        }
        loop
            invariant_except_break
                i <= n,
                j <= m,
                n == path@.len(),
                m == base@.len(),
                path_is_absolute(path@) == path_is_absolute(base@),
                walk_compose(
                    comps_view(comps@),
                    rel_walk(path@.skip(i as int), base@.skip(j as int), comps@.len() > 0),
                ) == rel_walk(path@, base@, false),
            ensures
                rel_walk(path@, base@, false) == Some(comps_view(comps@)),
            decreases (n - i) + (m - j),
        {
            let ghost pre = comps_view(comps@);
            let ghost p_rest = path@.skip(i as int);
            let ghost b_rest = base@.skip(j as int);
            proof {
                assert(pre.len() == comps@.len());
                assert(p_rest.len() == n - i);
                assert(b_rest.len() == m - j);
                assert(forall|k: int| 0 <= k < p_rest.len() ==> p_rest[k] == path@[i + k]);
                assert(forall|k: int| 0 <= k < b_rest.len() ==> b_rest[k] == base@[j + k]);
            }
            if i >= n && j >= m {
                proof {
                    assert(rel_walk(p_rest, b_rest, comps@.len() > 0) == Some(
                        Seq::<Seg>::empty(),
                    ));
                    assert(pre + Seq::<Seg>::empty() =~= pre);
                }
                break;
            } else if j >= m {
                // base exhausted: the rest of path goes out unchanged
                proof {
                    assert(rel_walk(p_rest, b_rest, comps@.len() > 0) == Some(p_rest));
                }
                let ghost i0 = i as int;
                while i < n
                    invariant
                        i0 <= i as int <= n,
                        n == path@.len(),
                        comps@.len() == pre.len() + (i as int - i0),
                        forall|k: int| 0 <= k < pre.len() ==> comps@[k]@ == pre[k],
                        forall|k: int|
                            pre.len() <= k < comps@.len() ==> comps@[k]@ == path@[i0 + (k
                                - pre.len())],
                    decreases n - i,
                {
                    comps.push(path.components[i].clone_component());
                    i = i + 1;
                }
                proof {
                    assert(comps_view(comps@) =~= pre + p_rest);
                }
                break;
            } else if i >= n {
                comps.push(Component::ParentDir);
                j = j + 1;
                proof {
                    assert(rel_walk(p_rest, b_rest, pre.len() > 0) == Some(
                        parents(b_rest.len() as int),
                    ));
                    assert(path@.skip(i as int).len() == 0);
                    assert(rel_walk(path@.skip(i as int), base@.skip(j as int), comps@.len() > 0)
                        == Some(parents(m - j as int)));
                    assert(pre + parents(b_rest.len() as int) =~= comps_view(comps@) + parents(
                        m - j as int,
                    ));
                }
            } else if comps.len() == 0 && path.components[i].eq_component(&base.components[j]) {
                i = i + 1;
                j = j + 1;
                proof {
                    assert(p_rest[0] == path@[i - 1]);
                    assert(b_rest[0] == base@[j - 1]);
                    assert(p_rest.drop_first() =~= path@.skip(i as int));
                    assert(b_rest.drop_first() =~= base@.skip(j as int));
                }
            } else if matches!(base.components[j], Component::CurDir) {
                proof {
                    assert(b_rest[0] == base@[j as int]);
                    assert(p_rest[0] == path@[i as int]);
                }
                comps.push(path.components[i].clone_component());
                i = i + 1;
                j = j + 1;
                proof {
                    assert(p_rest.drop_first() =~= path@.skip(i as int));
                    assert(b_rest.drop_first() =~= base@.skip(j as int));
                    assert(comps_view(comps@) =~= pre.push(p_rest[0]));
                    assert(comps@.len() > 0);
                    match rel_walk(p_rest.drop_first(), b_rest.drop_first(), true) {
                        Some(rest) => {
                            assert(rel_walk(p_rest, b_rest, pre.len() > 0) == Some(
                                seq![p_rest[0]] + rest,
                            ));
                            assert(pre + (seq![p_rest[0]] + rest) =~= pre.push(p_rest[0]) + rest);
                        },
                        None => {
                            assert(rel_walk(p_rest, b_rest, pre.len() > 0) is None);
                        },
                    }
                }
            } else if matches!(base.components[j], Component::ParentDir) {
                proof {
                    assert(b_rest[0] == base@[j as int]);
                    assert(p_rest[0] == path@[i as int]);
                    assert(rel_walk(p_rest, b_rest, pre.len() > 0) is None);
                }
                return None;
            } else {
                // divergence: parent steps for the rest of base, then path's rest
                proof {
                    assert(b_rest[0] == base@[j as int]);
                    assert(p_rest[0] == path@[i as int]);
                    assert(!(b_rest[0] is Cur) && !(b_rest[0] is Parent) && !(b_rest.len() == 0));
                    assert(rel_walk(p_rest, b_rest, pre.len() > 0) == Some(
                        parents(b_rest.len() as int) + p_rest,
                    ));
                }
                let ghost j0 = j as int;
                while j < m
                    invariant
                        j0 <= j as int <= m,
                        comps@.len() == pre.len() + (j as int - j0),
                        forall|k: int| 0 <= k < pre.len() ==> comps@[k]@ == pre[k],
                        forall|k: int|
                            pre.len() <= k < comps@.len() ==> comps@[k]@ == Seg::Parent,
                    decreases m - j,
                {
                    comps.push(Component::ParentDir);
                    j = j + 1;
                }
                let ghost pre2 = comps_view(comps@);
                proof {
                    assert(pre2 =~= pre + parents(b_rest.len() as int));
                }
                let ghost i0 = i as int;
                while i < n
                    invariant
                        i0 <= i as int <= n,
                        n == path@.len(),
                        comps@.len() == pre2.len() + (i as int - i0),
                        forall|k: int| 0 <= k < pre2.len() ==> comps@[k]@ == pre2[k],
                        forall|k: int|
                            pre2.len() <= k < comps@.len() ==> comps@[k]@ == path@[i0 + (k
                                - pre2.len())],
                    decreases n - i,
                {
                    comps.push(path.components[i].clone_component());
                    i = i + 1;
                }
                proof {
                    assert(comps_view(comps@) =~= pre2 + p_rest);
                    assert(comps_view(comps@) =~= pre + (parents(b_rest.len() as int) + p_rest));
                }
                break;
            }
        }
        proof {
            assert((FilePath { components: comps })@ =~= comps_view(comps@));
        }
        Some(FilePath { components: comps })
    }
}

} // verus!

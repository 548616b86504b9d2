//! Filesystem paths as sequences of components, with the operations of
//! `std::path` that the scanner uses, each stated over the components.
//! A path written in source text is read with `/` as separator, as on Unix.
use vstd::prelude::*;
use crate::text::{
    chars_equal, chars_from, chars_less, chars_lt, chars_of, chars_until, chars_views, copy_chars,
    split_at_char, split_chars, string_of,
};

verus! {

/// One component of a path: the root `/`, a leading `.`, a `..`, or a name.
#[derive(Debug, Clone, PartialEq, Eq, Hash)]
pub enum PathComponent {
    Root,
    Current,
    Parent,
    Normal(String),
}

/// The mathematical value of a `PathComponent`.
pub enum ComponentModel {
    Root,
    Current,
    Parent,
    Normal(Seq<char>),
}

impl DeepView for PathComponent {
    type V = ComponentModel;

    open spec fn deep_view(&self) -> ComponentModel {
        match self {
            PathComponent::Root => ComponentModel::Root,
            PathComponent::Current => ComponentModel::Current,
            PathComponent::Parent => ComponentModel::Parent,
            PathComponent::Normal(s) => ComponentModel::Normal(s@),
        }
    }
}

/// The mathematical value of a path.
pub open spec fn path_model(p: Seq<PathComponent>) -> Seq<ComponentModel> {
    p.map_values(|c: PathComponent| c.deep_view())
}

/// The model of a path grows by one component when one is pushed.
pub proof fn lemma_path_model_push(p: Seq<PathComponent>, c: PathComponent)
    ensures
        path_model(p.push(c)) == path_model(p).push(c.deep_view()),
{
    assert(path_model(p.push(c)) =~= path_model(p).push(c.deep_view()));
}

/// A copy of a component.
pub fn copy_component(c: &PathComponent) -> (r: PathComponent)
    ensures
        r.deep_view() == c.deep_view(),
{
    match c {
        PathComponent::Root => PathComponent::Root,
        PathComponent::Current => PathComponent::Current,
        PathComponent::Parent => PathComponent::Parent,
        PathComponent::Normal(s) => PathComponent::Normal(s.clone()),
    }
}

/// A copy of the components `p[start..end]`.
pub fn copy_components(p: &Vec<PathComponent>, start: usize, end: usize) -> (r: Vec<PathComponent>)
    requires
        start <= end <= p@.len(),
    ensures
        path_model(r@) == path_model(p@).subrange(start as int, end as int),
{
    let mut r: Vec<PathComponent> = Vec::new();
    let mut i: usize = start;
    while i < end
        invariant
            start <= i <= end <= p@.len(),
            path_model(r@) == path_model(p@).subrange(start as int, i as int),
        decreases end - i,
    {
        let c = copy_component(&p[i]);
        proof {
            lemma_path_model_push(r@, c);
        }
        r.push(c);
        i = i + 1;
        assert(path_model(r@) =~= path_model(p@).subrange(start as int, i as int));
    }
    r
}

/// Whether two components are equal.
pub fn component_equal(a: &PathComponent, b: &PathComponent) -> (r: bool)
    ensures
        r == (a.deep_view() == b.deep_view()),
{
    match a {
        PathComponent::Normal(x) => match b {
            PathComponent::Normal(y) => {
                let r = *x == *y;
                proof {
                    if x@ == y@ {
                        assert(a.deep_view() == b.deep_view());
                    }
                }
                r
            },
            _ => false,
        },
        _ => component_rank_of(a) == component_rank_of(b),
    }
}

/// Whether two paths have the same components (`Path`'s `==`).
pub fn path_equal(a: &Vec<PathComponent>, b: &Vec<PathComponent>) -> (r: bool)
    ensures
        r == (path_model(a@) == path_model(b@)),
{
    if a.len() != b.len() {
        assert(path_model(a@).len() != path_model(b@).len());
        return false;
    }
    let mut i: usize = 0;
    while i < a.len()
        invariant
            a@.len() == b@.len(),
            i <= a@.len(),
            path_model(a@).take(i as int) == path_model(b@).take(i as int),
        decreases a@.len() - i,
    {
        if !component_equal(&a[i], &b[i]) {
            assert(path_model(a@)[i as int] != path_model(b@)[i as int]);
            return false;
        }
        assert(path_model(a@).take(i + 1) =~= path_model(a@).take(i as int).push(
            path_model(a@)[i as int],
        ));
        assert(path_model(b@).take(i + 1) =~= path_model(b@).take(i as int).push(
            path_model(b@)[i as int],
        ));
        i = i + 1;
    }
    assert(path_model(a@).take(a@.len() as int) == path_model(a@));
    assert(path_model(b@).take(b@.len() as int) == path_model(b@));
    true
}

/// The position of a component kind in `std::path::Component`'s order.
pub open spec fn component_rank(c: ComponentModel) -> int {
    match c {
        ComponentModel::Root => 1,
        ComponentModel::Current => 2,
        ComponentModel::Parent => 3,
        ComponentModel::Normal(_) => 4,
    }
}

/// The order of `std::path::Component`: by kind, then names by code point.
pub open spec fn component_lt(a: ComponentModel, b: ComponentModel) -> bool {
    match (a, b) {
        (ComponentModel::Normal(x), ComponentModel::Normal(y)) => chars_lt(x, y),
        _ => component_rank(a) < component_rank(b),
    }
}

/// The order of `Path`: lexicographic over the components.
pub open spec fn path_lt(a: Seq<ComponentModel>, b: Seq<ComponentModel>) -> bool
    decreases a.len(),
{
    if a.len() == 0 {
        b.len() > 0
    } else if b.len() == 0 {
        false
    } else if a[0] != b[0] {
        component_lt(a[0], b[0])
    } else {
        path_lt(a.drop_first(), b.drop_first())
    }
}

/// Component order is a strict total order.
pub proof fn lemma_component_lt_order(a: ComponentModel, b: ComponentModel, c: ComponentModel)
    ensures
        !component_lt(a, a),
        component_lt(a, b) && component_lt(b, c) ==> component_lt(a, c),
        a != b ==> component_lt(a, b) || component_lt(b, a),
{
    match a {
        ComponentModel::Normal(x) => {
            crate::text::lemma_chars_lt_irreflexive(x);
        },
        _ => {},
    }
    match (a, b, c) {
        (ComponentModel::Normal(x), ComponentModel::Normal(y), ComponentModel::Normal(z)) => {
            if crate::text::chars_lt(x, y) && crate::text::chars_lt(y, z) {
                crate::text::lemma_chars_lt_transitive(x, y, z);
            }
        },
        _ => {},
    }
    match (a, b) {
        (ComponentModel::Normal(x), ComponentModel::Normal(y)) => {
            crate::text::lemma_chars_lt_total(x, y);
        },
        _ => {},
    }
}

/// Path order is irreflexive.
pub proof fn lemma_path_lt_irreflexive(a: Seq<ComponentModel>)
    ensures
        !path_lt(a, a),
    decreases a.len(),
{
    if a.len() > 0 {
        lemma_path_lt_irreflexive(a.drop_first());
    }
}

/// Path order is transitive.
pub proof fn lemma_path_lt_transitive(
    a: Seq<ComponentModel>,
    b: Seq<ComponentModel>,
    c: Seq<ComponentModel>,
)
    requires
        path_lt(a, b),
        path_lt(b, c),
    ensures
        path_lt(a, c),
    decreases a.len(),
{
    if a.len() > 0 {
        lemma_component_lt_order(a[0], b[0], c[0]);
        lemma_component_lt_order(b[0], c[0], a[0]);
        lemma_component_lt_order(c[0], a[0], b[0]);
        if a[0] == b[0] && b[0] == c[0] {
            lemma_path_lt_transitive(a.drop_first(), b.drop_first(), c.drop_first());
        } else if a[0] == c[0] {
            lemma_component_lt_order(a[0], b[0], a[0]);
        }
    }
}

/// Of two different paths, one precedes the other.
pub proof fn lemma_path_lt_total(a: Seq<ComponentModel>, b: Seq<ComponentModel>)
    ensures
        a != b ==> path_lt(a, b) || path_lt(b, a),
    decreases a.len(),
{
    if a.len() > 0 && b.len() > 0 {
        lemma_component_lt_order(a[0], b[0], a[0]);
        if a[0] == b[0] {
            lemma_path_lt_total(a.drop_first(), b.drop_first());
            if a.drop_first() == b.drop_first() {
                assert(a =~= seq![a[0]] + a.drop_first());
                assert(b =~= seq![b[0]] + b.drop_first());
            }
        }
    } else if a.len() == 0 && b.len() == 0 {
        assert(a =~= b);
    }
}

/// No two paths precede each other.
pub proof fn lemma_path_lt_asymmetric(a: Seq<ComponentModel>, b: Seq<ComponentModel>)
    ensures
        path_lt(a, b) ==> !path_lt(b, a),
{
    if path_lt(a, b) && path_lt(b, a) {
        lemma_path_lt_transitive(a, b, a);
        lemma_path_lt_irreflexive(a);
    }
}

fn component_rank_of(c: &PathComponent) -> (r: u8)
    ensures
        r == component_rank(c.deep_view()),
{
    match c {
        PathComponent::Root => 1,
        PathComponent::Current => 2,
        PathComponent::Parent => 3,
        PathComponent::Normal(_) => 4,
    }
}

/// Whether component `a` comes strictly before `b`.
pub fn component_less(a: &PathComponent, b: &PathComponent) -> (r: bool)
    ensures
        r == component_lt(a.deep_view(), b.deep_view()),
{
    match (a, b) {
        (PathComponent::Normal(x), PathComponent::Normal(y)) => {
            let xs = chars_of(x.as_str());
            let ys = chars_of(y.as_str());
            chars_less(&xs, &ys)
        },
        _ => component_rank_of(a) < component_rank_of(b),
    }
}

/// Whether path `a` comes strictly before path `b` (`Path`'s `<`).
pub fn path_less(a: &Vec<PathComponent>, b: &Vec<PathComponent>) -> (r: bool)
    ensures
        r == path_lt(path_model(a@), path_model(b@)),
{
    let ghost am = path_model(a@);
    let ghost bm = path_model(b@);
    let mut i: usize = 0;
    assert(am.skip(0) == am);
    assert(bm.skip(0) == bm);
    while i < a.len() && i < b.len()
        invariant
            am == path_model(a@),
            bm == path_model(b@),
            i <= a@.len(),
            i <= b@.len(),
            path_lt(am, bm) == path_lt(am.skip(i as int), bm.skip(i as int)),
        decreases a@.len() - i,
    {
        if !component_equal(&a[i], &b[i]) {
            assert(am.skip(i as int)[0] == am[i as int]);
            assert(bm.skip(i as int)[0] == bm[i as int]);
            return component_less(&a[i], &b[i]);
        }
        assert(am.skip(i as int).drop_first() == am.skip(i + 1));
        assert(bm.skip(i as int).drop_first() == bm.skip(i + 1));
        i = i + 1;
    }
    i < b.len()
}

/// `Path::file_name`: the last component when it is a name.
pub open spec fn file_name_of(p: Seq<ComponentModel>) -> Option<Seq<char>> {
    if p.len() > 0 {
        match p.last() {
            ComponentModel::Normal(n) => Some(n),
            _ => None,
        }
    } else {
        None
    }
}

/// The last component of `p` when it is a name.
pub fn file_name(p: &Vec<PathComponent>) -> (r: Option<Vec<char>>)
    ensures
        r matches Some(n) ==> file_name_of(path_model(p@)) == Some(n@),
        r is None ==> file_name_of(path_model(p@)) is None,
{
    if p.len() == 0 {
        return None;
    }
    match &p[p.len() - 1] {
        PathComponent::Normal(n) => Some(chars_of(n.as_str())),
        _ => None,
    }
}

/// The index of the last `.` in `name`, or -1 when there is none.
pub open spec fn last_dot(name: Seq<char>) -> int
    decreases name.len(),
{
    if name.len() == 0 {
        -1
    } else if name.last() == '.' {
        name.len() - 1
    } else {
        last_dot(name.drop_last())
    }
}

/// The index of the last `.` lies in `name` and holds a dot.
pub proof fn lemma_last_dot(name: Seq<char>)
    ensures
        -1 <= last_dot(name) < name.len(),
        last_dot(name) >= 0 ==> name[last_dot(name)] == '.',
        forall|i: int| last_dot(name) < i < name.len() ==> name[i] != '.',
    decreases name.len(),
{
    if name.len() > 0 && name.last() != '.' {
        lemma_last_dot(name.drop_last());
        assert forall|i: int| last_dot(name) < i < name.len() implies name[i] != '.' by {
            if i < name.len() - 1 {
                assert(name.drop_last()[i] == name[i]);
            }
        }
    }
}

/// `Path::extension` of a file name: what follows its last `.`, unless that
/// dot is the first character (`.rs` has none) or the name is `..`.
pub open spec fn extension_of(name: Seq<char>) -> Option<Seq<char>> {
    if name == seq!['.', '.'] || last_dot(name) <= 0 {
        None
    } else {
        Some(name.skip(last_dot(name) + 1))
    }
}

/// `Path::file_stem` of a file name: the name without its extension.
pub open spec fn file_stem_of(name: Seq<char>) -> Seq<char> {
    if name == seq!['.', '.'] || last_dot(name) <= 0 {
        name
    } else {
        name.take(last_dot(name))
    }
}

fn last_dot_index(name: &Vec<char>) -> (r: usize)
    ensures
        r == (if last_dot(name@) < 0 { name@.len() as int } else { last_dot(name@) }),
{
    let mut k: usize = name.len();
    assert(name@.take(name@.len() as int) == name@);
    while k > 0 && name[k - 1] != '.'
        invariant
            k <= name@.len(),
            last_dot(name@) == last_dot(name@.take(k as int)),
        decreases k,
    {
        assert(name@.take(k as int).drop_last() == name@.take(k - 1));
        k = k - 1;
    }
    assert(name@.take(name@.len() as int) == name@);
    if k == 0 {
        assert(name@.take(0).len() == 0);
        name.len()
    } else {
        assert(name@.take(k as int).last() == '.');
        k - 1
    }
}

fn is_dot_dot(name: &Vec<char>) -> (r: bool)
    ensures
        r == (name@ == seq!['.', '.']),
{
    let r = name.len() == 2 && name[0] == '.' && name[1] == '.';
    proof {
        if name@.len() == 2 && name@[0] == '.' && name@[1] == '.' {
            assert(name@ =~= seq!['.', '.']);
        }
    }
    r
}

/// The extension of the file name `name`.
pub fn extension(name: &Vec<char>) -> (r: Option<Vec<char>>)
    ensures
        r matches Some(e) ==> extension_of(name@) == Some(e@),
        r is None ==> extension_of(name@) is None,
{
    if is_dot_dot(name) {
        return None;
    }
    let d = last_dot_index(name);
    proof {
        lemma_last_dot(name@);
    }
    if d == 0 || d == name.len() {
        None
    } else {
        Some(chars_from(name, d + 1))
    }
}

/// The stem of the file name `name`.
pub fn file_stem(name: &Vec<char>) -> (r: Vec<char>)
    ensures
        r@ == file_stem_of(name@),
{
    if is_dot_dot(name) {
        return copy_chars(name);
    }
    let d = last_dot_index(name);
    proof {
        lemma_last_dot(name@);
    }
    if d == 0 || d == name.len() {
        copy_chars(name)
    } else {
        chars_until(name, d)
    }
}

/// `p` ends in a file name whose extension is `ext`.
pub open spec fn has_extension(p: Seq<ComponentModel>, ext: Seq<char>) -> bool {
    match file_name_of(p) {
        Some(n) => extension_of(n) == Some(ext),
        None => false,
    }
}

/// Whether `p` ends in a file name with extension `ext`.
pub fn path_has_extension(p: &Vec<PathComponent>, ext: &Vec<char>) -> (r: bool)
    ensures
        r == has_extension(path_model(p@), ext@),
{
    match file_name(p) {
        Some(n) => match extension(&n) {
            Some(e) => chars_equal(&e, ext),
            None => false,
        },
        None => false,
    }
}

/// `Path::strip_prefix`: the components of `p` after those of `base`, when
/// `base`'s components begin `p`'s.
pub open spec fn strip_prefix_of(p: Seq<ComponentModel>, base: Seq<ComponentModel>) -> Option<
    Seq<ComponentModel>,
> {
    if base.len() <= p.len() && p.take(base.len() as int) == base {
        Some(p.skip(base.len() as int))
    } else {
        None
    }
}

/// The components of `p` after the prefix `base`, if `p` starts with it.
pub fn strip_prefix(p: &Vec<PathComponent>, base: &Vec<PathComponent>) -> (r: Option<
    Vec<PathComponent>,
>)
    ensures
        r matches Some(rest) ==> strip_prefix_of(path_model(p@), path_model(base@)) == Some(
            path_model(rest@),
        ),
        r is None ==> strip_prefix_of(path_model(p@), path_model(base@)) is None,
{
    if base.len() > p.len() {
        return None;
    }
    let head = copy_components(p, 0, base.len());
    assert(path_model(p@).subrange(0, base@.len() as int) == path_model(p@).take(
        base@.len() as int,
    ));
    if !path_equal(&head, base) {
        return None;
    }
    let rest = copy_components(p, base.len(), p.len());
    assert(path_model(p@).subrange(base@.len() as int, p@.len() as int) == path_model(p@).skip(
        base@.len() as int,
    ));
    Some(rest)
}

/// `Path::parent`: `p` without its last component, unless `p` is empty or
/// ends in the root.
pub open spec fn parent_of(p: Seq<ComponentModel>) -> Option<Seq<ComponentModel>> {
    if p.len() == 0 || p.last() == ComponentModel::Root {
        None
    } else {
        Some(p.drop_last())
    }
}

/// The directory that holds `p`.
pub fn parent(p: &Vec<PathComponent>) -> (r: Option<Vec<PathComponent>>)
    ensures
        r matches Some(d) ==> parent_of(path_model(p@)) == Some(path_model(d@)),
        r is None ==> parent_of(path_model(p@)) is None,
{
    if p.len() == 0 {
        return None;
    }
    match &p[p.len() - 1] {
        PathComponent::Root => None,
        _ => {
            let d = copy_components(p, 0, p.len() - 1);
            assert(path_model(p@).subrange(0, p@.len() - 1) == path_model(p@).drop_last());
            Some(d)
        },
    }
}

/// The components that the `/`-separated pieces `segs` give: empty pieces
/// vanish, a `.` counts only as the very first piece, `..` is the parent.
pub open spec fn segment_components(segs: Seq<Seq<char>>) -> Seq<ComponentModel>
    decreases segs.len(),
{
    if segs.len() == 0 {
        Seq::<ComponentModel>::empty()
    } else {
        let prev = segment_components(segs.drop_last());
        let seg = segs.last();
        if seg.len() == 0 {
            prev
        } else if seg == seq!['.'] {
            if segs.len() == 1 {
                prev.push(ComponentModel::Current)
            } else {
                prev
            }
        } else if seg == seq!['.', '.'] {
            prev.push(ComponentModel::Parent)
        } else {
            prev.push(ComponentModel::Normal(seg))
        }
    }
}

/// `Path::components` of the text `s`, with `/` as separator.
pub open spec fn text_components(s: Seq<char>) -> Seq<ComponentModel> {
    if s.len() > 0 && s[0] == '/' {
        seq![ComponentModel::Root] + segment_components(split_at_char(s, '/'))
    } else {
        segment_components(split_at_char(s, '/'))
    }
}

/// The components of the path written as `s`.
pub fn components_of_text(s: &Vec<char>) -> (r: Vec<PathComponent>)
    ensures
        path_model(r@) == text_components(s@),
{
    let segs = split_chars(s, '/');
    let mut r: Vec<PathComponent> = Vec::new();
    if s.len() > 0 && s[0] == '/' {
        r.push(PathComponent::Root);
    }
    let ghost head = path_model(r@);
    let mut k: usize = 0;
    while k < segs.len()
        invariant
            k <= segs@.len(),
            chars_views(segs@) == split_at_char(s@, '/'),
            head == path_model(r@).take(head.len() as int),
            head == (if s@.len() > 0 && s@[0] == '/' {
                seq![ComponentModel::Root]
            } else {
                Seq::<ComponentModel>::empty()
            }),
            path_model(r@) == head + segment_components(chars_views(segs@).take(k as int)),
        decreases segs@.len() - k,
    {
        let seg = &segs[k];
        let ghost before = chars_views(segs@).take(k as int);
        assert(chars_views(segs@).take(k + 1).drop_last() =~= before);
        assert(chars_views(segs@).take(k + 1).last() == seg@);
        if seg.len() == 0 {
        } else if seg.len() == 1 && seg[0] == '.' {
            assert(seg@ =~= seq!['.']);
            if k == 0 {
                proof {
                    lemma_path_model_push(r@, PathComponent::Current);
                }
                r.push(PathComponent::Current);
            }
        } else if is_dot_dot(seg) {
            assert(seg@ != seq!['.']);
            proof {
                lemma_path_model_push(r@, PathComponent::Parent);
            }
            r.push(PathComponent::Parent);
        } else {
            assert(seg@ != seq!['.']);
            let c = PathComponent::Normal(string_of(seg));
            proof {
                lemma_path_model_push(r@, c);
            }
            r.push(c);
        }
        k = k + 1;
        assert(path_model(r@) =~= head + segment_components(chars_views(segs@).take(k as int)));
    }
    assert(chars_views(segs@).take(segs@.len() as int) =~= chars_views(segs@));
    r
}

/// `dir.join(text)`: a path written from the root replaces `dir`; otherwise
/// its components follow `dir`'s, a leading `.` vanishing after a non-empty
/// `dir`.
pub open spec fn join_text_of(dir: Seq<ComponentModel>, text: Seq<char>) -> Seq<ComponentModel> {
    let t = text_components(text);
    if t.len() > 0 && t[0] == ComponentModel::Root {
        t
    } else if dir.len() > 0 && t.len() > 0 && t[0] == ComponentModel::Current {
        dir + t.drop_first()
    } else {
        dir + t
    }
}

/// The path `text` taken relative to the directory `dir`.
pub fn join_text(dir: &Vec<PathComponent>, text: &Vec<char>) -> (r: Vec<PathComponent>)
    ensures
        path_model(r@) == join_text_of(path_model(dir@), text@),
{
    let t = components_of_text(text);
    if t.len() > 0 {
        if let PathComponent::Root = &t[0] {
            return t;
        }
    }
    let skip_first: usize = if dir.len() > 0 && t.len() > 0 {
        match &t[0] {
            PathComponent::Current => 1,
            _ => 0,
        }
    } else {
        0
    };
    let mut r = copy_components(dir, 0, dir.len());
    let rest = copy_components(&t, skip_first, t.len());
    let mut i: usize = 0;
    let ghost start = path_model(r@);
    assert(path_model(dir@).subrange(0, dir@.len() as int) == path_model(dir@));
    while i < rest.len()
        invariant
            i <= rest@.len(),
            path_model(r@) == start + path_model(rest@).take(i as int),
        decreases rest@.len() - i,
    {
        let c = copy_component(&rest[i]);
        proof {
            lemma_path_model_push(r@, c);
        }
        r.push(c);
        i = i + 1;
        assert(path_model(rest@).take(i as int) =~= path_model(rest@).take(i - 1).push(
            c.deep_view(),
        ));
        assert(path_model(r@) =~= start + path_model(rest@).take(i as int));
    }
    assert(path_model(rest@).take(rest@.len() as int) == path_model(rest@));
    assert(path_model(t@).subrange(0, t@.len() as int) == path_model(t@));
    if skip_first == 1 {
        assert(path_model(t@).subrange(1, t@.len() as int) == path_model(t@).drop_first());
    }
    r
}

/// The text of a component as `Path::iter` yields it.
pub open spec fn component_text_of(c: ComponentModel) -> Seq<char> {
    match c {
        ComponentModel::Root => seq!['/'],
        ComponentModel::Current => seq!['.'],
        ComponentModel::Parent => seq!['.', '.'],
        ComponentModel::Normal(n) => n,
    }
}

/// The text of a component.
pub fn component_text(c: &PathComponent) -> (r: Vec<char>)
    ensures
        r@ == component_text_of(c.deep_view()),
{
    match c {
        PathComponent::Root => vec!['/'],
        PathComponent::Current => vec!['.'],
        PathComponent::Parent => vec!['.', '.'],
        PathComponent::Normal(n) => chars_of(n.as_str()),
    }
}

} // verus!

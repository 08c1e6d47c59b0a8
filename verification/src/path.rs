//! Paths as texts, with `/` between their components.
use vstd::prelude::*;

use crate::order::{is_less, less};
use crate::text::{copy, joined, join, same, split, split_on, texts, cat};

verus! {

broadcast use {crate::deep::group_deep, crate::deep::lemma_take_next, crate::deep::lemma_take_all};

/// The pieces that name something: neither empty nor `.`.
pub open spec fn naming(v: Seq<Seq<char>>) -> Seq<Seq<char>>
    decreases v.len(),
{
    if v.len() == 0 {
        Seq::empty()
    } else if v.last().len() == 0 || v.last() == seq!['.'] {
        naming(v.drop_last())
    } else {
        naming(v.drop_last()).push(v.last())
    }
}

/// Whether a path starts at the root.
pub open spec fn is_absolute(p: Seq<char>) -> bool {
    p.len() > 0 && p[0] == '/'
}

/// The components of a path: `/` first where the path is absolute, `.` first where it begins with
/// one, then the names. Doubled and trailing slashes, and a `.` further in, leave no trace.
pub open spec fn components(p: Seq<char>) -> Seq<Seq<char>> {
    let pieces = split_on(p, '/');
    if is_absolute(p) {
        seq![seq!['/']] + naming(pieces)
    } else if pieces[0] == seq!['.'] {
        seq![seq!['.']] + naming(pieces)
    } else {
        naming(pieces)
    }
}

/// The rank of a component: root, current directory, parent directory, name.
pub open spec fn rank(c: Seq<char>) -> int {
    if c == seq!['/'] {
        0
    } else if c == seq!['.'] {
        1
    } else if c == seq!['.', '.'] {
        2
    } else {
        3
    }
}

/// The order of two components.
pub open spec fn component_less(a: Seq<char>, b: Seq<char>) -> bool {
    rank(a) < rank(b) || (rank(a) == 3 && rank(b) == 3 && less(a, b))
}

/// The order of two paths: component by component.
pub open spec fn components_less(a: Seq<Seq<char>>, b: Seq<Seq<char>>) -> bool
    decreases a.len(),
{
    if b.len() == 0 {
        false
    } else if a.len() == 0 {
        true
    } else if a[0] != b[0] {
        component_less(a[0], b[0])
    } else {
        components_less(a.skip(1), b.skip(1))
    }
}

/// Whether path `a` comes before path `b`.
pub open spec fn path_less(a: Seq<char>, b: Seq<char>) -> bool {
    components_less(components(a), components(b))
}

/// Whether the components of `base` are the first components of `p`.
pub open spec fn within(p: Seq<char>, base: Seq<char>) -> bool {
    components(base).is_prefix_of(components(p))
}

/// The text of a sequence of components.
pub open spec fn rendered(c: Seq<Seq<char>>) -> Seq<char> {
    if c.len() > 0 && c[0] == seq!['/'] {
        seq!['/'] + joined(c.skip(1), seq!['/'])
    } else {
        joined(c, seq!['/'])
    }
}

/// `rel` as seen from `base`.
pub open spec fn path_joined(base: Seq<char>, rel: Seq<char>) -> Seq<char> {
    if is_absolute(rel) {
        rel
    } else if base.len() > 0 && base.last() != '/' {
        base.push('/') + rel
    } else {
        base + rel
    }
}

/// A path, its parent, the parent of that, and so on to the root (or, from a relative path, to the
/// empty path).
pub open spec fn ancestors_of(p: Seq<char>) -> Seq<Seq<char>> {
    let c = components(p);
    let n = if is_absolute(p) {
        c.len()
    } else {
        c.len() + 1
    };
    Seq::new(n, |i: int| rendered(c.take(c.len() - i)))
}

fn is_text(s: &str, c: char) -> (r: bool)
    ensures
        r == (s@ == seq![c]),
{
    let v = crate::text::chars_of(s);
    let r = v.len() == 1 && v[0] == c;
    proof {
        if r {
            assert(s@ =~= seq![c]);
        } else if s@ == seq![c] {
            assert(s@.len() == 1 && s@[0] == c);
        }
    }
    r
}

/// The components of a path.
pub fn path_components(p: &str) -> (r: Vec<String>)
    ensures
        texts(r@) == components(p@),
{
    let pieces = split(p, '/');
    let ghost all = texts(pieces@);
    let mut r: Vec<String> = Vec::new();
    let v = crate::text::chars_of(p);
    proof {
        crate::text::lemma_find(p@, '/');
        assert(split_on(p@, '/').len() > 0);
    }
    if v.len() > 0 && v[0] == '/' {
        r.push(one_char('/'));
    } else if is_text(pieces[0].as_str(), '.') {
        r.push(one_char('.'));
    }
    let ghost head = texts(r@);
    assert(head + Seq::<Seq<char>>::empty() =~= head);
    let mut i: usize = 0;
    while i < pieces.len()
        invariant
            i <= pieces.len(),
            all == texts(pieces@),
            texts(r@) == head + naming(all.take(i as int)),
        decreases pieces.len() - i,
    {
        let piece = copy(pieces[i].as_str());
        let empty = piece.as_str().unicode_len() == 0;
        proof {
            assert(all.take(i + 1).drop_last() =~= all.take(i as int));
            assert(all.take(i + 1).last() == piece@);
        }
        if !empty && !is_text(piece.as_str(), '.') {
            proof {
                assert((head + naming(all.take(i as int))).push(piece@) =~= head + naming(
                    all.take(i as int),
                ).push(piece@));
            }
            r.push(piece);
        }
        i += 1;
    }
    proof {
        assert(texts(r@) =~= components(p@));
    }
    r
}

/// The text of one character.
pub fn one_char(c: char) -> (r: String)
    ensures
        r@ == seq![c],
{
    let mut r = String::new();
    r.push(c);
    assert(r@ =~= seq![c]);
    r
}

fn rank_of(c: &str) -> (r: u8)
    ensures
        r == rank(c@),
{
    if is_text(c, '/') {
        0
    } else if is_text(c, '.') {
        1
    } else {
        proof {
            reveal_strlit("..");
            assert(".."@ =~= seq!['.', '.']);
        }
        if same(c, "..") {
            2
        } else {
            3
        }
    }
}

/// Whether path `a` comes before path `b`.
pub fn path_is_less(a: &str, b: &str) -> (r: bool)
    ensures
        r == path_less(a@, b@),
{
    let x = path_components(a);
    let y = path_components(b);
    let ghost p = texts(x@);
    let ghost q = texts(y@);
    let mut i: usize = 0;
    proof {
        assert(p.skip(0) =~= p);
        assert(q.skip(0) =~= q);
    }
    while i < x.len() && i < y.len() && same(x[i].as_str(), y[i].as_str())
        invariant
            i <= x@.len(),
            i <= y@.len(),
            p == texts(x@),
            q == texts(y@),
            components_less(p, q) == components_less(p.skip(i as int), q.skip(i as int)),
        decreases x.len() - i,
    {
        proof {
            assert(p.skip(i as int).skip(1) =~= p.skip(i + 1));
            assert(q.skip(i as int).skip(1) =~= q.skip(i + 1));
            assert(p[i as int] == q[i as int]);
        }
        i += 1;
    }
    if i == y.len() {
        false
    } else if i == x.len() {
        true
    } else {
        let m = rank_of(x[i].as_str());
        let n = rank_of(y[i].as_str());
        let l = is_less(x[i].as_str(), y[i].as_str());
        assert(p[i as int] == x@[i as int]@ && q[i as int] == y@[i as int]@);
        m < n || (m == 3 && n == 3 && l)
    }
}

/// Whether two sequences of strings hold the same texts.
pub fn same_texts(x: &Vec<String>, y: &Vec<String>) -> (r: bool)
    ensures
        r == (texts(x@) == texts(y@)),
{
    if x.len() != y.len() {
        assert(texts(x@).len() != texts(y@).len());
        return false;
    }
    is_prefix(y, x)
}

fn is_prefix(x: &Vec<String>, y: &Vec<String>) -> (r: bool)
    ensures
        r == texts(x@).is_prefix_of(texts(y@)),
        x@.len() == y@.len() ==> r == (texts(x@) == texts(y@)),
{
    if x.len() > y.len() {
        return false;
    }
    let mut i: usize = 0;
    while i < x.len()
        invariant
            i <= x@.len() <= y@.len(),
            forall|j: int| 0 <= j < i ==> texts(x@)[j] == texts(y@)[j],
        decreases x.len() - i,
    {
        if !same(x[i].as_str(), y[i].as_str()) {
            assert(texts(x@)[i as int] != texts(y@)[i as int]);
            assert(texts(y@).subrange(0, x@.len() as int)[i as int] == texts(y@)[i as int]);
            return false;
        }
        i += 1;
    }
    assert(texts(x@) =~= texts(y@).subrange(0, x@.len() as int));
    if x.len() == y.len() {
        assert(texts(x@) =~= texts(y@));
    }
    true
}

/// Whether two texts name the same path.
pub fn same_path(a: &str, b: &str) -> (r: bool)
    ensures
        r == (components(a@) == components(b@)),
{
    same_texts(&path_components(a), &path_components(b))
}

/// Whether `p` is `base` or lies under it.
pub fn path_starts_with(p: &str, base: &str) -> (r: bool)
    ensures
        r == within(p@, base@),
{
    is_prefix(&path_components(base), &path_components(p))
}

/// The text of the first `n` of some components.
pub fn render(c: &Vec<String>, n: usize) -> (r: String)
    requires
        n <= c@.len(),
    ensures
        r@ == rendered(texts(c@).take(n as int)),
{
    let ghost all = texts(c@).take(n as int);
    let absolute = n > 0 && is_text(c[0].as_str(), '/');
    let from: usize = if absolute { 1 } else { 0 };
    let mut part: Vec<String> = Vec::new();
    let mut i: usize = from;
    assert(all.subrange(from as int, from as int) =~= Seq::<Seq<char>>::empty());
    while i < n
        invariant
            from <= i <= n <= c@.len(),
            all == texts(c@).take(n as int),
            texts(part@) == all.subrange(from as int, i as int),
        decreases n - i,
    {
        let piece = copy(c[i].as_str());
        assert(all.subrange(from as int, i + 1) =~= all.subrange(from as int, i as int).push(all[i as int]));
        part.push(piece);
        i += 1;
    }
    assert(n > 0 ==> all.subrange(1, n as int) =~= all.skip(1));
    assert(all.subrange(0, n as int) =~= all);
    let slash = one_char('/');
    let body = join(&part, slash.as_str());
    if absolute {
        cat(slash.as_str(), body.as_str())
    } else {
        body
    }
}

/// `rel` as seen from `base`.
pub fn join_path(base: &str, rel: &str) -> (r: String)
    ensures
        r@ == path_joined(base@, rel@),
{
    let b = crate::text::chars_of(base);
    let v = crate::text::chars_of(rel);
    if v.len() > 0 && v[0] == '/' {
        copy(rel)
    } else if b.len() > 0 && b[b.len() - 1] != '/' {
        let mut r = copy(base);
        r.push('/');
        r.append(rel);
        r
    } else {
        cat(base, rel)
    }
}

/// A path and all that lies above it, nearest first.
pub fn ancestors(p: &str) -> (r: Vec<String>)
    ensures
        texts(r@) == ancestors_of(p@),
{
    let c = path_components(p);
    let v = crate::text::chars_of(p);
    let absolute = v.len() > 0 && v[0] == '/';
    let mut r: Vec<String> = Vec::new();
    let mut n: usize = c.len();
    let least: usize = if absolute { 1 } else { 0 };
    assert(absolute ==> components(p@).len() >= 1);
    loop
        invariant_except_break
            least <= n <= c@.len(),
            texts(c@) == components(p@),
            least == (if is_absolute(p@) { 1int } else { 0int }),
            r@.len() == c@.len() - n,
            texts(r@) == ancestors_of(p@).take(r@.len() as int),
        ensures
            texts(r@) == ancestors_of(p@),
        decreases n,
    {
        let t = render(&c, n);
        proof {
            let k = r@.len() as int;
            assert(ancestors_of(p@)[k] == t@);
            assert(ancestors_of(p@).take(k + 1) =~= ancestors_of(p@).take(k).push(t@));
        }
        r.push(t);
        if n == least {
            assert(ancestors_of(p@).take(r@.len() as int) =~= ancestors_of(p@));
            break;
        }
        n -= 1;
    }
    r
}

pub proof fn lemma_naming_parts(a: Seq<Seq<char>>, b: Seq<Seq<char>>)
    ensures
        naming(a + b) == naming(a) + naming(b),
    decreases b.len(),
{
    let all = a + b;
    if b.len() == 0 {
        assert(all =~= a);
        assert(naming(a) + naming(b) =~= naming(a));
    } else {
        assert(all.drop_last() =~= a + b.drop_last());
        assert(all.last() == b.last());
        lemma_naming_parts(a, b.drop_last());
        assert(naming(all) =~= naming(a) + naming(b));
    }
}

/// Whether a path is plain: relative, and each piece between its slashes names something.
pub open spec fn plain(p: Seq<char>) -> bool {
    forall|i: int|
        0 <= i < split_on(p, '/').len() ==> (#[trigger] split_on(p, '/')[i]).len() > 0 && split_on(p, '/')[i]
            != seq!['.']
}

proof fn lemma_all_naming(v: Seq<Seq<char>>)
    requires
        forall|i: int| 0 <= i < v.len() ==> (#[trigger] v[i]).len() > 0 && v[i] != seq!['.'],
    ensures
        naming(v) == v,
    decreases v.len(),
{
    if v.len() > 0 {
        assert(v[v.len() - 1] == v.last());
        assert forall|i: int| 0 <= i < v.drop_last().len() implies (#[trigger] v.drop_last()[i]).len() > 0
            && v.drop_last()[i] != seq!['.'] by {
            assert(v.drop_last()[i] == v[i]);
        }
        lemma_all_naming(v.drop_last());
        assert(v.drop_last().push(v.last()) =~= v);
    }
}

/// A plain path is the text of its components, and is relative.
pub proof fn lemma_plain(p: Seq<char>)
    requires
        plain(p),
    ensures
        !is_absolute(p),
        components(p) == split_on(p, '/'),
        naming(split_on(p, '/')) == split_on(p, '/'),
        rendered(split_on(p, '/')) == p,
        split_on(p, '/').len() > 0,
{
    let v = split_on(p, '/');
    crate::text::law_split_and_join(p, '/');
    lemma_all_naming(v);
    if is_absolute(p) {
        crate::text::lemma_find_is(p, '/', 0);
        assert(v[0] == p.take(0));
    }
    if v[0] == seq!['/'] {
        assert(v[0].contains('/')) by {
            assert(v[0][0] == '/');
        }
    }
}

/// What lies below a directory has the components of the directory and then its own.
pub proof fn law_components_below(base: Seq<char>, rel: Seq<char>)
    requires
        base.len() > 0,
        !is_absolute(rel),
    ensures
        components(path_joined(base, rel)) == components(base) + naming(split_on(rel, '/')),
        within(path_joined(base, rel), base),
{
    let cut = if base.last() == '/' {
        base.drop_last()
    } else {
        base
    };
    let all = cut + seq!['/'] + rel;
    assert(path_joined(base, rel) =~= all);
    crate::text::lemma_split_parts(cut, rel, '/');
    lemma_naming_parts(split_on(cut, '/'), split_on(rel, '/'));
    crate::text::law_split_and_join(cut, '/');
    crate::text::law_split_and_join(rel, '/');
    if base.last() == '/' {
        let none = Seq::<char>::empty();
        assert(base =~= cut + seq!['/'] + none);
        crate::text::lemma_split_parts(cut, none, '/');
        crate::text::lemma_find_is(none, '/', 0);
        assert(split_on(none, '/') == seq![none]);
        lemma_naming_parts(split_on(cut, '/'), seq![none]);
        assert(seq![none].drop_last() =~= Seq::<Seq<char>>::empty());
        assert(seq![none].last() == none);
        assert(naming(Seq::<Seq<char>>::empty()) == Seq::<Seq<char>>::empty());
        assert(naming(seq![none]) == naming(seq![none].drop_last()));
        assert(naming(split_on(cut, '/')) + Seq::<Seq<char>>::empty() =~= naming(split_on(cut, '/')));
        assert(split_on(base, '/')[0] == split_on(cut, '/')[0]);
    }
    assert(split_on(all, '/')[0] == split_on(cut, '/')[0]);
    assert(is_absolute(all) == is_absolute(base)) by {
        if cut.len() > 0 {
            assert(all[0] == cut[0] && base[0] == cut[0]);
        } else {
            assert(all[0] == '/' && base[0] == '/');
        }
    }
    let c = components(base);
    let d = naming(split_on(rel, '/'));
    assert(components(all) =~= c + d);
    assert(c =~= (c + d).subrange(0, c.len() as int));
}

/// An absolute path stays as it is, wherever it is seen from.
pub proof fn law_absolute_paths_stay(base: Seq<char>, p: Seq<char>)
    ensures
        is_absolute(p) ==> path_joined(base, p) == p,
{
}

/// A directory lies in itself, and what lies in something that lies in a directory lies in the directory.
pub proof fn law_inside_is_passed_on(a: Seq<char>, b: Seq<char>, c: Seq<char>)
    ensures
        within(a, a),
        within(a, b) && within(b, c) ==> within(a, c),
{
    let (x, y, z) = (components(a), components(b), components(c));
    assert(x =~= x.subrange(0, x.len() as int));
    if within(a, b) && within(b, c) {
        assert(z =~= x.subrange(0, z.len() as int)) by {
            assert forall|i: int| 0 <= i < z.len() implies z[i] == x[i] by {
                assert(y.subrange(0, z.len() as int)[i] == y[i]);
                assert(x.subrange(0, y.len() as int)[i] == x[i]);
            }
        }
    }
}

proof fn lemma_naming_members(v: Seq<Seq<char>>, i: int)
    requires
        0 <= i < naming(v).len(),
    ensures
        v.contains(naming(v)[i]),
        naming(v)[i].len() > 0,
        naming(v)[i] != seq!['.'],
    decreases v.len(),
{
    let rest = v.drop_last();
    if i < naming(rest).len() {
        lemma_naming_members(rest, i);
        let k = choose|k: int| 0 <= k < rest.len() && rest[k] == naming(rest)[i];
        assert(v[k] == naming(v)[i]);
    } else {
        assert(naming(v)[i] == v[v.len() - 1]);
    }
}

proof fn lemma_split_of_joined(v: Seq<Seq<char>>)
    requires
        v.len() > 0,
        forall|i: int| 0 <= i < v.len() ==> !(#[trigger] v[i]).contains('/'),
    ensures
        split_on(joined(v, seq!['/']), '/') == v,
    decreases v.len(),
{
    let last = v.last();
    assert(!v[v.len() - 1].contains('/'));
    assert forall|j: int| 0 <= j < last.len() implies last[j] != '/' by {
        assert(last.contains(last[j]));
    }
    crate::text::lemma_find_is(last, '/', last.len() as int);
    assert(split_on(last, '/') == seq![last]);
    if v.len() == 1 {
        assert(v =~= seq![last]);
    } else {
        let rest = v.drop_last();
        assert forall|i: int| 0 <= i < rest.len() implies !(#[trigger] rest[i]).contains('/') by {
            assert(rest[i] == v[i]);
        }
        lemma_split_of_joined(rest);
        crate::text::lemma_split_parts(joined(rest, seq!['/']), last, '/');
        assert(rest + seq![last] =~= v);
    }
}

/// The components of the text of names are the names, behind `/` where the text starts at the root and behind
/// `.` where it starts there.
proof fn lemma_components_of_rendered(names: Seq<Seq<char>>)
    requires
        forall|i: int| 0 <= i < names.len() ==> !(#[trigger] names[i]).contains('/') && names[i].len() > 0 && names[i]
            != seq!['.'],
    ensures
        components(rendered(names)) == names,
        components(rendered(seq![seq!['/']] + names)) == seq![seq!['/']] + names,
        components(rendered(seq![seq!['.']] + names)) == seq![seq!['.']] + names,
{
    let none = Seq::<char>::empty();
    let sep = seq!['/'];
    let text = joined(names, sep);
    crate::text::lemma_find_is(none, '/', 0);
    assert(split_on(none, '/') == seq![none]);
    lemma_all_naming(names);
    assert(naming(seq![none]) =~= Seq::<Seq<char>>::empty()) by {
        reveal_with_fuel(naming, 2);
    }
    if names.len() > 0 {
        assert(!names[0].contains('/'));
        if names[0] == sep {
            assert(names[0][0] == '/');
        }
        lemma_split_of_joined(names);
        lemma_plain(text);
    }
    // At the root.
    let rooted = seq![sep] + names;
    assert(rooted.skip(1) =~= names);
    assert(rendered(rooted) =~= none + sep + text);
    crate::text::lemma_split_parts(none, text, '/');
    lemma_naming_parts(seq![none], split_on(text, '/'));
    if names.len() == 0 {
        assert(naming(split_on(text, '/')) =~= names);
    }
    assert(naming(seq![none] + split_on(text, '/')) =~= names);
    // At the current directory.
    let here = seq![seq!['.']] + names;
    assert(here[0] == seq!['.']);
    assert(here[0][0] == '.');
    assert forall|i: int| 0 <= i < here.len() implies !(#[trigger] here[i]).contains('/') by {
        if i > 0 {
            assert(here[i] == names[i - 1]);
        }
    }
    lemma_split_of_joined(here);
    let dotted = joined(here, sep);
    assert(rendered(here) == dotted);
    if is_absolute(dotted) {
        crate::text::lemma_find_is(dotted, '/', 0);
        assert(split_on(dotted, '/')[0] == dotted.take(0));
    }
    lemma_naming_parts(seq![seq!['.']], names);
    assert(naming(seq![seq!['.']]) =~= Seq::<Seq<char>>::empty()) by {
        reveal_with_fuel(naming, 2);
        assert(seq![seq!['.']].last() == seq!['.']);
        assert(seq![seq!['.']].drop_last() =~= Seq::<Seq<char>>::empty());
    }
    assert(naming(here) =~= names);
}

/// The ancestors of a path are the path itself and then, each with one component less than the one before, the
/// directories that it lies in, up to the root or, from a relative path, the empty path.
pub proof fn law_ancestors(p: Seq<char>, i: int)
    requires
        0 <= i < ancestors_of(p).len(),
    ensures
        components(ancestors_of(p)[i]) == components(p).take(components(p).len() - i),
        within(p, ancestors_of(p)[i]),
        i == ancestors_of(p).len() - 1 ==> ancestors_of(p)[i] == if is_absolute(p) {
            seq!['/']
        } else {
            Seq::empty()
        },
{
    let c = components(p);
    let k = c.len() - i;
    let d = c.take(k);
    let pieces = split_on(p, '/');
    let names = naming(pieces);
    crate::text::law_split_and_join(p, '/');
    assert forall|j: int| 0 <= j < names.len() implies !(#[trigger] names[j]).contains('/') && names[j].len() > 0
        && names[j] != seq!['.'] by {
        lemma_naming_members(pieces, j);
    }
    let kept = if c.len() == names.len() {
        names.take(k)
    } else if k == 0 {
        Seq::empty()
    } else {
        names.take(k - 1)
    };
    assert forall|j: int| 0 <= j < kept.len() implies !(#[trigger] kept[j]).contains('/') && kept[j].len() > 0 && kept[j]
        != seq!['.'] by {
        assert(kept[j] == names[j]);
    }
    lemma_components_of_rendered(kept);
    if is_absolute(p) {
        assert(d =~= seq![seq!['/']] + kept);
        if k == 1 {
            assert(kept =~= Seq::<Seq<char>>::empty());
            assert(d.skip(1) =~= kept);
            assert(rendered(d) =~= seq!['/']);
        }
    } else if pieces[0] == seq!['.'] {
        if k == 0 {
            assert(d =~= kept);
        } else {
            assert(d =~= seq![seq!['.']] + kept);
        }
    } else {
        assert(d =~= kept);
    }
    if k == 0 {
        assert(rendered(d) =~= Seq::<char>::empty());
    }
    assert(d =~= c.subrange(0, d.len() as int));
}

proof fn lemma_first_difference(a: Seq<Seq<char>>, b: Seq<Seq<char>>, i: int)
    requires
        0 <= i <= a.len(),
        i <= b.len(),
        forall|j: int| 0 <= j < i ==> a[j] == #[trigger] b[j],
    ensures
        i < a.len() && i < b.len() && a[i] != b[i] ==> components_less(a, b) == component_less(a[i], b[i]),
        i == a.len() ==> components_less(a, b) == (a.len() < b.len()),
        i == b.len() ==> !components_less(a, b),
    decreases i,
{
    if i > 0 {
        assert(a[0] == b[0]);
        let x = a.skip(1);
        let y = b.skip(1);
        assert forall|j: int| 0 <= j < i - 1 implies x[j] == #[trigger] y[j] by {
            assert(a[j + 1] == b[j + 1]);
        }
        lemma_first_difference(x, y, i - 1);
    }
}

/// Paths are ordered by the first component in which they differ, and a directory comes before what lies below
/// it. Names are ordered as texts; the root comes before `.`, `.` before `..` and that before every name.
pub proof fn law_order_of_paths(a: Seq<char>, b: Seq<char>, i: int, n: Seq<char>, m: Seq<char>)
    requires
        0 <= i <= components(a).len(),
        i <= components(b).len(),
        forall|j: int| 0 <= j < i ==> components(a)[j] == #[trigger] components(b)[j],
        n != seq!['/'] && n != seq!['.'] && n != seq!['.', '.'],
        m != seq!['/'] && m != seq!['.'] && m != seq!['.', '.'],
    ensures
        i < components(a).len() && i < components(b).len() && components(a)[i] != components(b)[i] ==> path_less(a, b)
            == component_less(components(a)[i], components(b)[i]),
        i == components(a).len() < components(b).len() ==> path_less(a, b) && !path_less(b, a),
        component_less(n, m) == less(n, m),
        component_less(seq!['/'], seq!['.']) && component_less(seq!['.'], seq!['.', '.']) && component_less(
            seq!['.', '.'],
            n,
        ),
        !component_less(n, seq!['.', '.']) && !component_less(seq!['.', '.'], seq!['.']) && !component_less(
            seq!['.'],
            seq!['/'],
        ),
{
    lemma_first_difference(components(a), components(b), i);
    assert forall|j: int| 0 <= j < i implies components(b)[j] == #[trigger] components(a)[j] by {
        assert(components(a)[j] == components(b)[j]);
    }
    lemma_first_difference(components(b), components(a), i);
    assert(seq!['.'] != seq!['/']) by {
        assert(seq!['.'][0] != seq!['/'][0]);
    }
    assert(seq!['.', '.'].len() == 2);
    assert(seq!['.'].len() == 1);
    assert(seq!['/'].len() == 1);
}

} // verus!

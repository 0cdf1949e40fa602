//! Paths: UTF-8 texts, read by the path rules of the platform that the crate
//! is compiled for.

use std::cmp::Ordering;
use vstd::prelude::*;

verus! {

/// The components of a path, each with the rank of its kind (prefix, root,
/// `.`, `..`, normal: 0 to 4) and the text by which it is told apart within its
/// kind, as `camino::Utf8Path::components` yields them by the path rules of the
/// platform that the crate is compiled for.
pub uninterp spec fn path_components(path: Seq<char>) -> Seq<(int, Seq<char>)>;

/// What `camino::Utf8Path::join` gives, by the path rules of the platform that the
/// crate is compiled for.
pub uninterp spec fn path_join(base: Seq<char>, child: Seq<char>) -> Seq<char>;

/// What `camino::Utf8Path::parent` gives, by the path rules of the platform that the
/// crate is compiled for.
pub uninterp spec fn path_parent(path: Seq<char>) -> Option<Seq<char>>;

/// What `camino::Utf8Path::is_relative` gives, by the path rules of the platform that the
/// crate is compiled for.
pub uninterp spec fn path_is_relative(path: Seq<char>) -> bool;

/// Lexicographic order over an order on the items.
pub open spec fn lex_less<T>(a: Seq<T>, b: Seq<T>, less: spec_fn(T, T) -> bool) -> bool
    decreases a.len(),
{
    if b.len() == 0 {
        false
    } else if a.len() == 0 {
        true
    } else if a[0] == b[0] {
        lex_less(a.skip(1), b.skip(1), less)
    } else {
        less(a[0], b[0])
    }
}

/// `less` is a strict total order.
pub open spec fn strict_total<T>(less: spec_fn(T, T) -> bool) -> bool {
    &&& forall|x: T| !#[trigger] less(x, x)
    &&& forall|x: T, y: T| x == y || #[trigger] less(x, y) || less(y, x)
    &&& forall|x: T, y: T, z: T| #[trigger] less(x, y) && #[trigger] less(y, z) ==> less(x, z)
}

/// The order of two characters: that of their code points.
pub open spec fn char_less() -> spec_fn(char, char) -> bool {
    |x: char, y: char| (x as int) < (y as int)
}

/// The order of two texts: that of their first differing character.
pub open spec fn text_less(a: Seq<char>, b: Seq<char>) -> bool {
    lex_less(a, b, char_less())
}

/// The order of two path components: by kind, then by text.
pub open spec fn component_less() -> spec_fn((int, Seq<char>), (int, Seq<char>)) -> bool {
    |x: (int, Seq<char>), y: (int, Seq<char>)| x.0 < y.0 || (x.0 == y.0 && text_less(x.1, y.1))
}

/// Path `a` comes before path `b`: by the first component in which they differ.
pub open spec fn path_before(a: Seq<char>, b: Seq<char>) -> bool {
    lex_less(path_components(a), path_components(b), component_less())
}

/// Two texts that are the same path: they have the same components.
pub open spec fn same_path(a: Seq<char>, b: Seq<char>) -> bool {
    path_components(a) == path_components(b)
}

/// The rank of a normal component, which names an entry.
pub open spec fn normal() -> int {
    4
}

/// The name that a path ends in: its last component, where that is a normal
/// one.
pub open spec fn path_file_name(path: Seq<char>) -> Option<Seq<char>> {
    let parts = path_components(path);
    if parts.len() > 0 && parts.last().0 == normal() {
        Some(parts.last().1)
    } else {
        None
    }
}

/// How two paths are ordered.
#[derive(Debug, Clone, Copy, PartialEq, Eq)]
pub enum PathOrder {
    Before,
    Same,
    After,
}

/// `camino::Utf8Path::cmp`: compares the paths component by component, by the
/// first in which they differ.
#[verifier::external_body]
fn compare_components(a: &str, b: &str) -> (r: PathOrder)
    ensures
        r is Before <==> lex_less(path_components(a@), path_components(b@), component_less()),
        r is Same <==> path_components(a@) == path_components(b@),
        r is After <==> lex_less(path_components(b@), path_components(a@), component_less()),
{
    match camino::Utf8Path::new(a).cmp(camino::Utf8Path::new(b)) {
        Ordering::Less => PathOrder::Before,
        Ordering::Equal => PathOrder::Same,
        Ordering::Greater => PathOrder::After,
    }
}

/// Whether a backslash separates components, as it does by the path rules of
/// Windows alone.
pub open spec fn backslash_separates() -> bool {
    path_components(seq!['a', '\\', 'b']).len() > 1
}

/// A separator of components on a platform where a backslash is one.
pub open spec fn is_separator(c: char) -> bool {
    c == '/' || c == '\\'
}

/// The name of a directory entry: neither empty nor `.` nor `..`, and without
/// a separator or, where there are drives, the mark of one.
pub open spec fn plain_name(name: Seq<char>) -> bool {
    &&& name.len() > 0
    &&& name != seq!['.']
    &&& name != seq!['.', '.']
    &&& !name.contains('/')
    &&& backslash_separates() ==> !name.contains('\\') && !name.contains(':')
}

/// `\\server\share` or below it.
pub open spec fn on_share(path: Seq<char>) -> bool {
    let parts = path_components(path);
    &&& parts.len() > 0 && parts[0].0 == 0
    &&& path.len() > 2 && path[2] != '?' && path[2] != '.'
}

/// `\\?\C:\`, whatever the drive, or below it.
pub open spec fn on_verbatim_drive(path: Seq<char>) -> bool {
    &&& path.len() >= 7
    &&& path[0] == '\\' && path[1] == '\\' && path[2] == '?' && path[3] == '\\'
    &&& 'a' <= path[4] <= 'z' || 'A' <= path[4] <= 'Z'
    &&& path[5] == ':' && path[6] == '\\'
}

/// A path whose prefix a name that is joined to it cannot become part of. Where a
/// backslash separates, two separators begin such a prefix (`\\server` with
/// `share` joined to it is one); that of a network share or of a drive is
/// complete.
pub open spec fn plain_base(base: Seq<char>) -> bool {
    backslash_separates() && base.len() >= 2 && is_separator(base[0]) && is_separator(base[1])
        ==> on_share(base) || on_verbatim_drive(base)
}

/// `camino::Utf8Path::join`: the path of `child` below `base`. Joining the name
/// of an entry adds that name as the last component, unless it completes the
/// prefix of `base`.
#[verifier::external_body]
pub(crate) fn join(base: &str, child: &str) -> (r: String)
    ensures
        r@ == path_join(base@, child@),
        plain_base(base@) && plain_name(child@) ==> path_components(r@) == path_components(
            base@,
        ).push((normal(), child@)),
{
    camino::Utf8Path::new(base).join(child).into_string()
}

/// `camino::Utf8Path::parent`: the path without its last component, or `None`
/// where it ends in a root.
#[verifier::external_body]
pub(crate) fn parent(path: &str) -> (r: Option<String>)
    ensures
        r is Some <==> path_parent(path@) is Some,
        r matches Some(p) ==> path_parent(path@) == Some(p@),
{
    camino::Utf8Path::new(path).parent().map(|p| p.to_string())
}

/// `camino::Utf8Path::file_name`: the last component, where it is a normal one.
#[verifier::external_body]
pub(crate) fn file_name(path: &str) -> (r: Option<String>)
    ensures
        r is Some <==> path_file_name(path@) is Some,
        r matches Some(name) ==> path_file_name(path@) == Some(name@),
{
    camino::Utf8Path::new(path).file_name().map(|name| name.to_string())
}

/// `camino::Utf8Path::is_relative`: whether the path depends on where it is taken
/// from.
#[verifier::external_body]
pub(crate) fn is_relative(path: &str) -> (r: bool)
    ensures
        r == path_is_relative(path@),
{
    camino::Utf8Path::new(path).is_relative()
}

/// How two paths are ordered.
pub fn order_paths(a: &str, b: &str) -> (r: PathOrder)
    ensures
        r is Before <==> path_before(a@, b@),
        r is Same <==> same_path(a@, b@),
        r is After <==> path_before(b@, a@),
{
    compare_components(a, b)
}

/// Whether two texts are the same path.
pub fn equal_paths(a: &str, b: &str) -> (r: bool)
    ensures
        r == same_path(a@, b@),
{
    matches!(compare_components(a, b), PathOrder::Same)
}

/// Nothing comes before itself.
pub proof fn lemma_lex_irreflexive<T>(a: Seq<T>, less: spec_fn(T, T) -> bool)
    requires
        strict_total(less),
    ensures
        !lex_less(a, a, less),
    decreases a.len(),
{
    if a.len() > 0 {
        lemma_lex_irreflexive(a.skip(1), less);
    }
}

/// Of two sequences that differ, one comes before the other.
pub proof fn lemma_lex_total<T>(a: Seq<T>, b: Seq<T>, less: spec_fn(T, T) -> bool)
    requires
        strict_total(less),
    ensures
        a == b || lex_less(a, b, less) || lex_less(b, a, less),
    decreases a.len(),
{
    if a.len() > 0 && b.len() > 0 && a[0] == b[0] {
        lemma_lex_total(a.skip(1), b.skip(1), less);
        if a.skip(1) == b.skip(1) {
            assert forall|i: int| 0 <= i < a.len() implies a[i] == b[i] by {
                if i > 0 {
                    assert(a[i] == a.skip(1)[i - 1]);
                    assert(b[i] == b.skip(1)[i - 1]);
                }
            }
            assert(a.skip(1).len() == b.skip(1).len());
            assert(a =~= b);
        }
    } else if a.len() == 0 && b.len() == 0 {
        assert(a =~= b);
    }
}

/// Lexicographic order is transitive.
pub proof fn lemma_lex_transitive<T>(a: Seq<T>, b: Seq<T>, c: Seq<T>, less: spec_fn(T, T) -> bool)
    requires
        strict_total(less),
        lex_less(a, b, less),
        lex_less(b, c, less),
    ensures
        lex_less(a, c, less),
    decreases a.len(),
{
    if a.len() > 0 && a[0] == b[0] && b[0] == c[0] {
        lemma_lex_transitive(a.skip(1), b.skip(1), c.skip(1), less);
    }
}

proof fn lemma_char_order()
    ensures
        strict_total(char_less()),
{
    let less = char_less();
    assert forall|x: char, y: char| x == y || #[trigger] less(x, y) || less(y, x) by {
        if x as int == y as int {
            assert(x == y);
        }
    }
}

proof fn lemma_component_order()
    ensures
        strict_total(component_less()),
{
    lemma_char_order();
    let less = component_less();
    let cl = char_less();
    assert forall|x: (int, Seq<char>)| !#[trigger] less(x, x) by {
        lemma_lex_irreflexive(x.1, cl);
    }
    assert forall|x: (int, Seq<char>), y: (int, Seq<char>)|
        x == y || #[trigger] less(x, y) || less(y, x) by {
        lemma_lex_total(x.1, y.1, cl);
    }
    assert forall|x: (int, Seq<char>), y: (int, Seq<char>), z: (int, Seq<char>)| #[trigger]
        less(x, y) && #[trigger] less(y, z) implies less(x, z) by {
        if x.0 == y.0 && y.0 == z.0 {
            lemma_lex_transitive(x.1, y.1, z.1, cl);
        }
    }
}

/// Texts are totally ordered: of two texts that differ, one comes before the
/// other, and only one does.
pub proof fn text_order_is_total(a: Seq<char>, b: Seq<char>)
    ensures
        a == b <==> !text_less(a, b) && !text_less(b, a),
        !(text_less(a, b) && text_less(b, a)),
{
    lemma_char_order();
    lemma_lex_total(a, b, char_less());
    lemma_lex_irreflexive(a, char_less());
    if text_less(a, b) && text_less(b, a) {
        lemma_lex_transitive(a, b, a, char_less());
    }
}

/// The order of texts is transitive.
pub proof fn text_order_is_transitive(a: Seq<char>, b: Seq<char>, c: Seq<char>)
    requires
        text_less(a, b),
        text_less(b, c),
    ensures
        text_less(a, c),
{
    lemma_char_order();
    lemma_lex_transitive(a, b, c, char_less());
}

/// Whether one text comes before another.
pub fn text_before(a: &[char], b: &[char]) -> (r: bool)
    ensures
        r == text_less(a@, b@),
{
    let mut i: usize = 0;
    assert(a@.skip(0) =~= a@);
    assert(b@.skip(0) =~= b@);
    while i < a.len() && i < b.len() && a[i] == b[i]
        invariant
            i <= a@.len(),
            i <= b@.len(),
            text_less(a@, b@) == text_less(a@.skip(i as int), b@.skip(i as int)),
        decreases a@.len() - i,
    {
        assert(a@.skip(i as int).skip(1) =~= a@.skip(i + 1));
        assert(b@.skip(i as int).skip(1) =~= b@.skip(i + 1));
        i += 1;
    }
    if i >= b.len() {
        false
    } else if i >= a.len() {
        true
    } else {
        a[i] < b[i]
    }
}

/// Paths are totally ordered: of two paths that are not the same, one comes
/// before the other, and only one does.
pub proof fn path_order_is_total(a: Seq<char>, b: Seq<char>)
    ensures
        same_path(a, b) <==> !path_before(a, b) && !path_before(b, a),
        !(path_before(a, b) && path_before(b, a)),
{
    lemma_component_order();
    let (ca, cb, less) = (path_components(a), path_components(b), component_less());
    lemma_lex_total(ca, cb, less);
    lemma_lex_irreflexive(ca, less);
    if path_before(a, b) && path_before(b, a) {
        lemma_lex_transitive(ca, cb, ca, less);
    }
}

/// The order of paths is transitive.
pub proof fn path_order_is_transitive(a: Seq<char>, b: Seq<char>, c: Seq<char>)
    requires
        path_before(a, b),
        path_before(b, c),
    ensures
        path_before(a, c),
{
    lemma_component_order();
    lemma_lex_transitive(path_components(a), path_components(b), path_components(c), component_less());
}

} // verus!

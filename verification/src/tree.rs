//! One level of the vault's folder tree, built from flat paths, and the
//! filters that narrow the paths to a folder's children.
use vstd::prelude::*;
use vstd::relations::{sorted_by, total_ordering};
use crate::paths::{components, extract_parent, parent_of, split_path};
use crate::text::{chars_of, starts_with, starts_with_chars, string_from_chars};
use crate::wikilink::eq_chars;

verus! {

broadcast use vstd::seq_lib::group_to_multiset_ensures;

/// The order of `String`: lexicographic by character (which is the order of
/// their UTF-8 bytes).
pub open spec fn text_lt(a: Seq<char>, b: Seq<char>) -> bool
    decreases a.len(),
{
    if a.len() == 0 {
        b.len() > 0
    } else if b.len() == 0 {
        false
    } else if a[0] != b[0] {
        (a[0] as u32) < (b[0] as u32)
    } else {
        text_lt(a.drop_first(), b.drop_first())
    }
}

/// Every element is at most the ones after it.
pub open spec fn sorted(s: Seq<Seq<char>>) -> bool {
    forall|i: int, j: int| 0 <= i < j < s.len() ==> !text_lt(#[trigger] s[j], #[trigger] s[i])
}

/// Every element is below the ones after it.
pub open spec fn strictly_sorted(s: Seq<Seq<char>>) -> bool {
    forall|i: int, j: int| 0 <= i < j < s.len() ==> text_lt(#[trigger] s[i], #[trigger] s[j])
}

pub proof fn lemma_text_lt_irreflexive(a: Seq<char>)
    ensures
        !text_lt(a, a),
    decreases a.len(),
{
    if a.len() > 0 {
        lemma_text_lt_irreflexive(a.drop_first());
    }
}

pub proof fn lemma_text_lt_transitive(a: Seq<char>, b: Seq<char>, c: Seq<char>)
    requires
        text_lt(a, b),
        text_lt(b, c),
    ensures
        text_lt(a, c),
    decreases a.len(),
{
    if a.len() > 0 && b.len() > 0 && c.len() > 0 {
        if a[0] == b[0] && b[0] == c[0] {
            lemma_text_lt_transitive(a.drop_first(), b.drop_first(), c.drop_first());
        }
    }
}

pub proof fn lemma_text_lt_total(a: Seq<char>, b: Seq<char>)
    ensures
        a == b || text_lt(a, b) || text_lt(b, a),
    decreases a.len(),
{
    if a.len() > 0 && b.len() > 0 {
        if a[0] != b[0] {
            vstd::utf8::char_u32_cast(a[0], a[0] as u32);
            vstd::utf8::char_u32_cast(b[0], b[0] as u32);
        } else {
            lemma_text_lt_total(a.drop_first(), b.drop_first());
            if a.drop_first() == b.drop_first() {
                assert(a =~= seq![a[0]] + a.drop_first());
                assert(b =~= seq![b[0]] + b.drop_first());
            }
        }
    } else if a.len() == 0 && b.len() == 0 {
        assert(a =~= b);
    }
}

pub proof fn lemma_text_lt_asymmetric(a: Seq<char>, b: Seq<char>)
    requires
        text_lt(a, b),
    ensures
        !text_lt(b, a),
{
    if text_lt(b, a) {
        lemma_text_lt_transitive(a, b, a);
        lemma_text_lt_irreflexive(a);
    }
}

/// `text_lt` on character slices.
pub fn text_lt_exec(a: &[char], b: &[char]) -> (r: bool)
    ensures
        r == text_lt(a@, b@),
{
    let mut i: usize = 0;
    assert(a@.skip(0) == a@ && b@.skip(0) == b@);
    while i < a.len() && i < b.len() && a[i] == b[i]
        invariant
            i <= a@.len(),
            i <= b@.len(),
            text_lt(a@, b@) == text_lt(a@.skip(i as int), b@.skip(i as int)),
        decreases a.len() - i,
    {
        assert(a@.skip(i as int).drop_first() == a@.skip(i + 1));
        assert(b@.skip(i as int).drop_first() == b@.skip(i + 1));
        i += 1;
    }
    if i == a.len() {
        i < b.len()
    } else if i == b.len() {
        false
    } else {
        (a[i] as u32) < (b[i] as u32)
    }
}

fn sorted_insert(v: &mut Vec<Vec<char>>, x: Vec<char>)
    requires
        sorted(old(v).deep_view()),
    ensures
        sorted(final(v).deep_view()),
        final(v).deep_view().to_multiset() == old(v).deep_view().to_multiset().insert(x@),
{
    let ghost dv = v.deep_view();
    let mut p: usize = 0;
    while p < v.len() && !text_lt_exec(x.as_slice(), v[p].as_slice())
        invariant
            p <= v@.len(),
            dv == v.deep_view(),
            forall|k: int| 0 <= k < p ==> !text_lt(x@, #[trigger] dv[k]),
        decreases v.len() - p,
    {
        assert(v[p as int].deep_view() =~= v[p as int]@);
        p += 1;
    }
    proof {
        if p < v@.len() {
            assert(v[p as int].deep_view() =~= v[p as int]@);
        }
    }
    let ghost xv = x@;
    assert(x.deep_view() =~= x@);
    v.insert(p, x);
    let ghost t = v.deep_view();
    assert(t =~= dv.insert(p as int, xv));
    assert forall|i: int, j: int| 0 <= i < j < t.len() implies !text_lt(
        #[trigger] t[j],
        #[trigger] t[i],
    ) by {
        if j < p {
            assert(t[i] == dv[i] && t[j] == dv[j]);
        } else if j == p {
            assert(t[i] == dv[i]);
        } else if i < p {
            assert(t[i] == dv[i] && t[j] == dv[j - 1]);
        } else if i == p {
            // x < dv[p] <= dv[j - 1]
            assert(t[j] == dv[j - 1]);
            let y = dv[p as int];
            assert(text_lt(xv, y));
            if j - 1 > p {
                assert(!text_lt(dv[j - 1], y));
            }
            lemma_text_lt_total(y, dv[j - 1]);
            if y != dv[j - 1] {
                lemma_text_lt_transitive(xv, y, dv[j - 1]);
            }
            lemma_text_lt_asymmetric(xv, dv[j - 1]);
        } else {
            assert(t[i] == dv[i - 1] && t[j] == dv[j - 1]);
        }
    }
    proof {
        vstd::seq_lib::to_multiset_insert(dv, p as int, xv);
    }
}

fn sorted_insert_unique(v: &mut Vec<Vec<char>>, x: Vec<char>)
    requires
        strictly_sorted(old(v).deep_view()),
    ensures
        strictly_sorted(final(v).deep_view()),
        final(v).deep_view().to_set() == old(v).deep_view().to_set().insert(x@),
{
    let ghost dv = v.deep_view();
    let mut p: usize = 0;
    while p < v.len() && text_lt_exec(v[p].as_slice(), x.as_slice())
        invariant
            p <= v@.len(),
            dv == v.deep_view(),
            forall|k: int| 0 <= k < p ==> text_lt(#[trigger] dv[k], x@),
        decreases v.len() - p,
    {
        assert(v[p as int].deep_view() =~= v[p as int]@);
        p += 1;
    }
    proof {
        if p < v@.len() {
            assert(v[p as int].deep_view() =~= v[p as int]@);
        }
    }
    let ghost xv = x@;
    if p < v.len() && !text_lt_exec(x.as_slice(), v[p].as_slice()) {
        // v[p] is neither below nor above x: it is x.
        proof {
            lemma_text_lt_total(xv, dv[p as int]);
            assert(dv[p as int] == xv);
            assert(dv.to_set().insert(xv) =~= dv.to_set());
        }
        return;
    }
    assert(x.deep_view() =~= x@);
    v.insert(p, x);
    let ghost t = v.deep_view();
    assert(t =~= dv.insert(p as int, xv));
    assert forall|i: int, j: int| 0 <= i < j < t.len() implies text_lt(
        #[trigger] t[i],
        #[trigger] t[j],
    ) by {
        if j < p {
            assert(t[i] == dv[i] && t[j] == dv[j]);
        } else if j == p {
            assert(t[i] == dv[i]);
        } else if i < p {
            assert(t[i] == dv[i] && t[j] == dv[j - 1]);
        } else if i == p {
            assert(t[j] == dv[j - 1]);
            let y = dv[p as int];
            if j - 1 > p {
                lemma_text_lt_transitive(xv, y, dv[j - 1]);
            }
        } else {
            assert(t[i] == dv[i - 1] && t[j] == dv[j - 1]);
        }
    }
    assert(t.to_set() =~= dv.to_set().insert(xv)) by {
        assert forall|e: Seq<char>| t.to_set().contains(e) implies dv.to_set().insert(xv).contains(
            e,
        ) by {
            let k = choose|k: int| 0 <= k < t.len() && t[k] == e;
            if k < p {
                assert(dv[k] == e);
            } else if k > p {
                assert(dv[k - 1] == e);
            }
        }
        assert forall|e: Seq<char>| dv.to_set().insert(xv).contains(e) implies t.to_set().contains(
            e,
        ) by {
            if e == xv {
                assert(t[p as int] == e);
            } else {
                let k = choose|k: int| 0 <= k < dv.len() && dv[k] == e;
                if k < p {
                    assert(t[k] == e);
                } else {
                    assert(t[k + 1] == e);
                }
            }
        }
    }
}

/// Drag-and-drop payload: what is being dragged and whether it's a file or folder.
#[derive(Clone, Debug)]
pub struct DragPayload {
    /// Relative path of the item being dragged.
    pub path: String,
    /// True if the item is a folder, false if it's a file.
    pub is_folder: bool,
}

/// What dropping a dragged item on a folder does.
#[derive(Clone, Copy, Debug, PartialEq, Eq, Structural)]
pub enum DropDecision {
    /// Nothing: the item is already in that folder.
    Ignore,
    /// Refused: a folder cannot move into itself or a folder inside it.
    IntoItself,
    /// Move the item into the folder.
    Move,
}

/// The decision for dropping the item at `from` (a folder or not) on the
/// folder `dest`.
pub open spec fn drop_decision_of(from: Seq<char>, is_folder: bool, dest: Seq<char>) -> DropDecision {
    if parent_of(from) == dest {
        DropDecision::Ignore
    } else if is_folder && (dest == from || starts_with(dest, from.push('/'))) {
        DropDecision::IntoItself
    } else {
        DropDecision::Move
    }
}

/// Decide what dropping a dragged item on the folder `dest` does: nothing
/// when it is already there, a refusal when a folder would move into
/// itself, else a move.
pub fn drop_decision(payload: &DragPayload, dest: &str) -> (r: DropDecision)
    ensures
        r == drop_decision_of(payload.path@, payload.is_folder, dest@),
{
    let parent = extract_parent(payload.path.as_str());
    let d = chars_of(dest);
    if eq_chars(chars_of(parent.as_str()).as_slice(), d.as_slice()) {
        return DropDecision::Ignore;
    }
    if payload.is_folder {
        let f = chars_of(payload.path.as_str());
        let mut prefix = chars_of(payload.path.as_str());
        prefix.push('/');
        if eq_chars(d.as_slice(), f.as_slice()) || starts_with_chars(d.as_slice(), prefix.as_slice()) {
            return DropDecision::IntoItself;
        }
    }
    DropDecision::Move
}

/// A single item at one level of the tree.
#[derive(Clone, Debug)]
pub enum TreeItem {
    Folder(String),
    File(String),
}

pub enum TreeItemView {
    Folder(Seq<char>),
    File(Seq<char>),
}

impl View for TreeItem {
    type V = TreeItemView;

    open spec fn view(&self) -> TreeItemView {
        match self {
            TreeItem::Folder(s) => TreeItemView::Folder(s@),
            TreeItem::File(s) => TreeItemView::File(s@),
        }
    }
}

impl DeepView for TreeItem {
    type V = TreeItemView;

    open spec fn deep_view(&self) -> TreeItemView {
        self@
    }
}

/// The `.empty` placeholder file that keeps an empty folder in the vault.
pub open spec fn placeholder_name() -> Seq<char> {
    ".empty"@
}

/// The folder names the file paths contribute at `depth`: the component at
/// `depth` of each path that goes deeper than that.
pub open spec fn folder_names_from_files(paths: Seq<Seq<char>>, depth: int) -> Seq<Seq<char>>
    decreases paths.len(),
{
    if paths.len() == 0 {
        seq![]
    } else {
        let c = components(paths.last());
        folder_names_from_files(paths.drop_last(), depth) + if depth < c.len() - 1 {
            seq![c[depth]]
        } else {
            seq![]
        }
    }
}

/// The folder names the folder paths contribute at `depth`.
pub open spec fn folder_names_from_folders(fps: Seq<Seq<char>>, depth: int) -> Seq<Seq<char>>
    decreases fps.len(),
{
    if fps.len() == 0 {
        seq![]
    } else {
        let c = components(fps.last());
        folder_names_from_folders(fps.drop_last(), depth) + if depth < c.len() {
            seq![c[depth]]
        } else {
            seq![]
        }
    }
}

/// The files at `depth`: the paths whose last component is at `depth`,
/// placeholders left out.
pub open spec fn files_at(paths: Seq<Seq<char>>, depth: int) -> Seq<Seq<char>>
    decreases paths.len(),
{
    if paths.len() == 0 {
        seq![]
    } else {
        let c = components(paths.last());
        files_at(paths.drop_last(), depth) + if c.len() > 0 && depth == c.len() - 1 && c[depth]
            != placeholder_name() {
            seq![paths.last()]
        } else {
            seq![]
        }
    }
}

/// The names of the folder items, in order.
pub open spec fn folder_items(r: Seq<TreeItemView>) -> Seq<Seq<char>>
    decreases r.len(),
{
    if r.len() == 0 {
        seq![]
    } else {
        folder_items(r.drop_last()) + match r.last() {
            TreeItemView::Folder(n) => seq![n],
            TreeItemView::File(_) => seq![],
        }
    }
}

/// The paths of the file items, in order.
pub open spec fn file_items(r: Seq<TreeItemView>) -> Seq<Seq<char>>
    decreases r.len(),
{
    if r.len() == 0 {
        seq![]
    } else {
        file_items(r.drop_last()) + match r.last() {
            TreeItemView::Folder(_) => seq![],
            TreeItemView::File(p) => seq![p],
        }
    }
}

/// One level of the tree: the folders at `depth`, each once, in order, then
/// the files at `depth`, in order.
pub open spec fn is_level(
    r: Seq<TreeItemView>,
    paths: Seq<Seq<char>>,
    folder_paths: Seq<Seq<char>>,
    depth: int,
) -> bool {
    &&& forall|i: int, j: int|
        0 <= i < j < r.len() && #[trigger] r[j] is Folder ==> #[trigger] r[i] is Folder
    &&& strictly_sorted(folder_items(r))
    &&& folder_items(r).to_set() == (folder_names_from_files(paths, depth)
        + folder_names_from_folders(folder_paths, depth)).to_set()
    &&& sorted(file_items(r))
    &&& file_items(r).to_multiset() == files_at(paths, depth).to_multiset()
}

fn component_at(path: &str, depth: usize) -> (r: (usize, Option<Vec<char>>))
    ensures
        r.0 == components(path@).len(),
        r.0 > depth <==> r.1 is Some,
        r.1 matches Some(c) ==> c@ == components(path@)[depth as int],
{
    let comps = split_path(path);
    if depth < comps.len() {
        assert(comps.deep_view()[depth as int] == comps[depth as int]@);
        (comps.len(), Some(chars_of(comps[depth])))
    } else {
        (comps.len(), None)
    }
}

fn is_placeholder(c: &Vec<char>) -> (b: bool)
    ensures
        b == (c@ == placeholder_name()),
{
    let p = chars_of(".empty");
    proof {
        reveal_strlit(".empty");
    }
    if c.len() != p.len() {
        return false;
    }
    let mut i: usize = 0;
    while i < c.len()
        invariant
            c@.len() == p@.len(),
            p@ == placeholder_name(),
            i <= c@.len(),
            forall|m: int| 0 <= m < i ==> c@[m] == p@[m],
        decreases c.len() - i,
    {
        if c[i] != p[i] {
            return false;
        }
        i += 1;
    }
    assert(c@ =~= p@);
    true
}

proof fn lemma_folder_items_push(r: Seq<TreeItemView>, n: Seq<char>)
    ensures
        folder_items(r.push(TreeItemView::Folder(n))) == folder_items(r).push(n),
        file_items(r.push(TreeItemView::Folder(n))) == file_items(r),
{
    assert(r.push(TreeItemView::Folder(n)).drop_last() =~= r);
}

proof fn lemma_file_items_push(r: Seq<TreeItemView>, p: Seq<char>)
    ensures
        folder_items(r.push(TreeItemView::File(p))) == folder_items(r),
        file_items(r.push(TreeItemView::File(p))) == file_items(r).push(p),
{
    assert(r.push(TreeItemView::File(p)).drop_last() =~= r);
}

/// Build one level of the tree from flat paths at the given depth: the
/// folders found at that depth (from the file paths and from the folder
/// paths), each once and sorted, followed by the files at that depth,
/// sorted, `.empty` placeholders left out.
pub fn build_level(paths: &[String], folder_paths: &[String], depth: usize) -> (r: Vec<TreeItem>)
    ensures
        is_level(r.deep_view(), paths.deep_view(), folder_paths.deep_view(), depth as int),
{
    let ghost pv = paths.deep_view();
    let ghost fv = folder_paths.deep_view();
    let mut folder_names: Vec<Vec<char>> = Vec::new();
    let mut files: Vec<Vec<char>> = Vec::new();
    let mut i: usize = 0;
    assert(folder_names.deep_view() =~= Seq::<Seq<char>>::empty());
    assert(files.deep_view() =~= Seq::<Seq<char>>::empty());
    assert(pv.take(0) =~= Seq::<Seq<char>>::empty());
    // The folder candidates contributed by the file paths, and the files.
    let mut cands: Vec<Vec<char>> = Vec::new();
    assert(cands.deep_view() =~= Seq::<Seq<char>>::empty());
    while i < paths.len()
        invariant
            i <= paths@.len(),
            pv == paths.deep_view(),
            cands.deep_view() == folder_names_from_files(pv.take(i as int), depth as int),
            files.deep_view() == files_at(pv.take(i as int), depth as int),
        decreases paths.len() - i,
    {
        assert(pv.take(i + 1).drop_last() =~= pv.take(i as int));
        assert(pv.take(i + 1).last() == paths[i as int]@);
        let ghost c = components(paths[i as int]@);
        let (n, comp) = component_at(paths[i].as_str(), depth);
        let ghost before_c = cands.deep_view();
        let ghost before_f = files.deep_view();
        match comp {
            Some(name) => {
                if depth == n - 1 {
                    if !is_placeholder(&name) {
                        let f = chars_of(paths[i].as_str());
                        assert(f.deep_view() =~= f@);
                        files.push(f);
                        assert(files.deep_view() =~= before_f.push(paths[i as int]@));
                    }
                } else {
                    assert(name.deep_view() =~= name@);
                    cands.push(name);
                    assert(cands.deep_view() =~= before_c.push(c[depth as int]));
                }
            },
            None => {},
        }
        assert(cands.deep_view() =~= folder_names_from_files(pv.take(i + 1), depth as int));
        assert(files.deep_view() =~= files_at(pv.take(i + 1), depth as int));
        i += 1;
    }
    assert(pv.take(paths@.len() as int) =~= pv);
    let mut j: usize = 0;
    let ghost from_files = cands.deep_view();
    assert(fv.take(0) =~= Seq::<Seq<char>>::empty());
    assert(from_files + folder_names_from_folders(fv.take(0), depth as int) =~= from_files);
    while j < folder_paths.len()
        invariant
            j <= folder_paths@.len(),
            fv == folder_paths.deep_view(),
            cands.deep_view() == from_files + folder_names_from_folders(
                fv.take(j as int),
                depth as int,
            ),
        decreases folder_paths.len() - j,
    {
        assert(fv.take(j + 1).drop_last() =~= fv.take(j as int));
        assert(fv.take(j + 1).last() == folder_paths[j as int]@);
        let ghost c = components(folder_paths[j as int]@);
        let (_n, comp) = component_at(folder_paths[j].as_str(), depth);
        let ghost before_c = cands.deep_view();
        match comp {
            Some(name) => {
                assert(name.deep_view() =~= name@);
                cands.push(name);
                assert(cands.deep_view() =~= before_c.push(c[depth as int]));
            },
            None => {},
        }
        assert(cands.deep_view() =~= from_files + folder_names_from_folders(
            fv.take(j + 1),
            depth as int,
        ));
        j += 1;
    }
    assert(fv.take(folder_paths@.len() as int) =~= fv);
    // Sort and deduplicate the folder names; sort the files.
    let ghost all_cands = cands.deep_view();
    let mut k: usize = 0;
    assert(all_cands.take(0).to_set() =~= Set::<Seq<char>>::empty());
    assert(folder_names.deep_view().to_set() =~= Set::<Seq<char>>::empty());
    while k < cands.len()
        invariant
            k <= cands@.len(),
            all_cands == cands.deep_view(),
            strictly_sorted(folder_names.deep_view()),
            folder_names.deep_view().to_set() == all_cands.take(k as int).to_set(),
        decreases cands.len() - k,
    {
        let x = crate::text::copy_range(cands[k].as_slice(), 0, cands[k].len());
        assert(cands[k as int].deep_view() =~= cands[k as int]@);
        assert(all_cands[k as int] == x@);
        sorted_insert_unique(&mut folder_names, x);
        assert(all_cands.take(k + 1) =~= all_cands.take(k as int) + seq![all_cands[k as int]]);
        proof {
            Seq::<Seq<char>>::lemma_to_set_insert_commutes(all_cands.take(k as int), all_cands[k as int]);
        }
        k += 1;
    }
    assert(all_cands.take(cands@.len() as int) =~= all_cands);
    let ghost all_files = files.deep_view();
    let mut sorted_files: Vec<Vec<char>> = Vec::new();
    let mut m: usize = 0;
    assert(sorted_files.deep_view() =~= Seq::<Seq<char>>::empty());
    assert(all_files.take(0) =~= Seq::<Seq<char>>::empty());
    while m < files.len()
        invariant
            m <= files@.len(),
            all_files == files.deep_view(),
            sorted(sorted_files.deep_view()),
            sorted_files.deep_view().to_multiset() == all_files.take(m as int).to_multiset(),
        decreases files.len() - m,
    {
        let x = crate::text::copy_range(files[m].as_slice(), 0, files[m].len());
        assert(files[m as int].deep_view() =~= files[m as int]@);
        assert(all_files[m as int] == x@);
        sorted_insert(&mut sorted_files, x);
        assert(all_files.take(m + 1) =~= all_files.take(m as int).push(all_files[m as int]));
        m += 1;
    }
    assert(all_files.take(files@.len() as int) =~= all_files);
    // Emit the folders, then the files.
    let mut result: Vec<TreeItem> = Vec::new();
    let ghost fnames = folder_names.deep_view();
    let mut a: usize = 0;
    assert(result.deep_view() =~= Seq::<TreeItemView>::empty());
    while a < folder_names.len()
        invariant
            a <= folder_names@.len(),
            fnames == folder_names.deep_view(),
            result@.len() == a,
            folder_items(result.deep_view()) == fnames.take(a as int),
            file_items(result.deep_view()) == Seq::<Seq<char>>::empty(),
            forall|q: int| 0 <= q < result@.len() ==> #[trigger] result.deep_view()[q] is Folder,
        decreases folder_names.len() - a,
    {
        let nv = crate::text::copy_range(folder_names[a].as_slice(), 0, folder_names[a].len());
        assert(folder_names[a as int].deep_view() =~= folder_names[a as int]@);
        assert(nv@ =~= fnames[a as int]);
        let name = string_from_chars(nv);
        let ghost before = result.deep_view();
        result.push(TreeItem::Folder(name));
        assert(result.deep_view() =~= before.push(TreeItemView::Folder(fnames[a as int])));
        proof {
            lemma_folder_items_push(before, fnames[a as int]);
        }
        assert(fnames.take(a + 1) =~= fnames.take(a as int).push(fnames[a as int]));
        a += 1;
    }
    assert(fnames.take(folder_names@.len() as int) =~= fnames);
    let ghost sfiles = sorted_files.deep_view();
    let ghost nf = result@.len();
    let mut b: usize = 0;
    assert(sfiles.take(0) =~= Seq::<Seq<char>>::empty());
    while b < sorted_files.len()
        invariant
            b <= sorted_files@.len(),
            sfiles == sorted_files.deep_view(),
            result@.len() == nf + b,
            folder_items(result.deep_view()) == fnames,
            file_items(result.deep_view()) == sfiles.take(b as int),
            forall|q: int| 0 <= q < nf ==> #[trigger] result.deep_view()[q] is Folder,
            forall|q: int| nf <= q < result@.len() ==> #[trigger] result.deep_view()[q] is File,
        decreases sorted_files.len() - b,
    {
        let pv2 = crate::text::copy_range(sorted_files[b].as_slice(), 0, sorted_files[b].len());
        assert(sorted_files[b as int].deep_view() =~= sorted_files[b as int]@);
        assert(pv2@ =~= sfiles[b as int]);
        let path = string_from_chars(pv2);
        let ghost before = result.deep_view();
        result.push(TreeItem::File(path));
        assert(result.deep_view() =~= before.push(TreeItemView::File(sfiles[b as int])));
        proof {
            lemma_file_items_push(before, sfiles[b as int]);
        }
        assert(sfiles.take(b + 1) =~= sfiles.take(b as int).push(sfiles[b as int]));
        b += 1;
    }
    assert(sfiles.take(sorted_files@.len() as int) =~= sfiles);
    result
}

/// Whether the component at `depth` of a path is `name`.
pub open spec fn has_component_at(path: Seq<char>, name: Seq<char>, depth: int) -> bool {
    components(path).len() > depth && components(path)[depth] == name
}

/// The paths whose component at `depth` is `name`, in order.
pub open spec fn paths_under(paths: Seq<Seq<char>>, name: Seq<char>, depth: int) -> Seq<Seq<char>>
    decreases paths.len(),
{
    if paths.len() == 0 {
        seq![]
    } else {
        paths_under(paths.drop_last(), name, depth) + if has_component_at(
            paths.last(),
            name,
            depth,
        ) {
            seq![paths.last()]
        } else {
            seq![]
        }
    }
}

fn filter_by_component(paths: &[String], folder_name: &str, depth: usize) -> (r: Vec<String>)
    ensures
        r.deep_view() == paths_under(paths.deep_view(), folder_name@, depth as int),
{
    let ghost pv = paths.deep_view();
    let want = chars_of(folder_name);
    let mut out: Vec<String> = Vec::new();
    let mut i: usize = 0;
    assert(out.deep_view() =~= Seq::<Seq<char>>::empty());
    assert(pv.take(0) =~= Seq::<Seq<char>>::empty());
    while i < paths.len()
        invariant
            i <= paths@.len(),
            pv == paths.deep_view(),
            want@ == folder_name@,
            out.deep_view() == paths_under(pv.take(i as int), folder_name@, depth as int),
        decreases paths.len() - i,
    {
        assert(pv.take(i + 1).drop_last() =~= pv.take(i as int));
        assert(pv.take(i + 1).last() == paths[i as int]@);
        let (_n, comp) = component_at(paths[i].as_str(), depth);
        let ghost before = out.deep_view();
        let matches = match comp {
            Some(c) => crate::wikilink::eq_chars(c.as_slice(), want.as_slice()),
            None => false,
        };
        if matches {
            out.push(paths[i].clone());
            assert(out.deep_view() =~= before.push(paths[i as int]@));
        }
        assert(out.deep_view() =~= paths_under(pv.take(i + 1), folder_name@, depth as int));
        i += 1;
    }
    assert(pv.take(paths@.len() as int) =~= pv);
    out
}

/// Filter paths to the children of a folder at the given depth: those
/// whose component at `depth` is the folder's name.
pub fn filter_paths_for_folder(paths: &[String], folder_name: &str, depth: usize) -> (r: Vec<
    String,
>)
    ensures
        r.deep_view() == paths_under(paths.deep_view(), folder_name@, depth as int),
{
    filter_by_component(paths, folder_name, depth)
}

/// Filter folder paths that contain the folder at the given depth (with
/// separators normalized to `/`).
pub fn filter_folder_paths(folder_paths: &[String], folder_name: &str, depth: usize) -> (r: Vec<
    String,
>)
    ensures
        r.deep_view() == paths_under(folder_paths.deep_view(), folder_name@, depth as int),
{
    filter_by_component(folder_paths, folder_name, depth)
}

/// "Not after": the order in which `sorted` lists texts.
pub open spec fn text_le(a: Seq<char>, b: Seq<char>) -> bool {
    !text_lt(b, a)
}

proof fn lemma_text_le_total()
    ensures
        total_ordering(|a: Seq<char>, b: Seq<char>| text_le(a, b)),
{
    let leq = |a: Seq<char>, b: Seq<char>| text_le(a, b);
    assert forall|x: Seq<char>| #[trigger] leq(x, x) by {
        lemma_text_lt_irreflexive(x);
    }
    assert forall|x: Seq<char>, y: Seq<char>| #[trigger] leq(x, y) && #[trigger] leq(y, x) implies x
        == y by {
        lemma_text_lt_total(x, y);
    }
    assert forall|x: Seq<char>, y: Seq<char>, z: Seq<char>| #[trigger] leq(x, y) && #[trigger] leq(
        y,
        z,
    ) implies leq(x, z) by {
        lemma_text_lt_total(x, y);
        if text_lt(z, x) && text_lt(x, y) {
            lemma_text_lt_transitive(z, x, y);
        }
    }
    assert forall|x: Seq<char>, y: Seq<char>| #[trigger] leq(x, y) || #[trigger] leq(y, x) by {
        if text_lt(y, x) {
            lemma_text_lt_asymmetric(y, x);
        }
    }
}

/// Two sorted lists of the same texts, repeats counted, are equal.
proof fn lemma_sorted_unique(x: Seq<Seq<char>>, y: Seq<Seq<char>>)
    requires
        sorted(x),
        sorted(y),
        x.to_multiset() == y.to_multiset(),
    ensures
        x == y,
{
    let leq = |a: Seq<char>, b: Seq<char>| text_le(a, b);
    lemma_text_le_total();
    assert(sorted_by(x, leq));
    assert(sorted_by(y, leq));
    vstd::seq_lib::lemma_sorted_unique(x, y, leq);
}

/// Two strictly sorted lists of the same set of texts are equal.
proof fn lemma_strictly_sorted_unique(x: Seq<Seq<char>>, y: Seq<Seq<char>>)
    requires
        strictly_sorted(x),
        strictly_sorted(y),
        x.to_set() == y.to_set(),
    ensures
        x == y,
{
    broadcast use vstd::seq_lib::group_to_multiset_ensures;

    assert forall|i: int, j: int| 0 <= i < j < x.len() implies !text_lt(
        #[trigger] x[j],
        #[trigger] x[i],
    ) by {
        lemma_text_lt_asymmetric(x[i], x[j]);
    }
    assert forall|i: int, j: int| 0 <= i < j < y.len() implies !text_lt(
        #[trigger] y[j],
        #[trigger] y[i],
    ) by {
        lemma_text_lt_asymmetric(y[i], y[j]);
    }
    assert(x.no_duplicates()) by {
        assert forall|i: int, j: int| 0 <= i < x.len() && 0 <= j < x.len() && i != j implies x[i]
            != x[j] by {
            if i < j {
                lemma_text_lt_irreflexive(x[i]);
            } else {
                lemma_text_lt_irreflexive(x[j]);
            }
        }
    }
    assert(y.no_duplicates()) by {
        assert forall|i: int, j: int| 0 <= i < y.len() && 0 <= j < y.len() && i != j implies y[i]
            != y[j] by {
            if i < j {
                lemma_text_lt_irreflexive(y[i]);
            } else {
                lemma_text_lt_irreflexive(y[j]);
            }
        }
    }
    x.lemma_multiset_has_no_duplicates();
    y.lemma_multiset_has_no_duplicates();
    assert forall|a: Seq<char>| #[trigger] x.to_multiset().count(a) == y.to_multiset().count(a) by {
        assert(x.contains(a) == x.to_set().contains(a));
        assert(y.contains(a) == y.to_set().contains(a));
    }
    assert(x.to_multiset() =~= y.to_multiset());
    lemma_sorted_unique(x, y);
}

/// A list with every folder before every file is its folders, then its files.
proof fn lemma_folders_then_files(r: Seq<TreeItemView>)
    requires
        forall|i: int, j: int|
            0 <= i < j < r.len() && #[trigger] r[j] is Folder ==> #[trigger] r[i] is Folder,
    ensures
        r.len() == folder_items(r).len() + file_items(r).len(),
        forall|i: int|
            0 <= i < folder_items(r).len() ==> r[i] == TreeItemView::Folder(
                #[trigger] folder_items(r)[i],
            ),
        forall|i: int|
            0 <= i < file_items(r).len() ==> r[folder_items(r).len() + i] == TreeItemView::File(
                #[trigger] file_items(r)[i],
            ),
    decreases r.len(),
{
    if r.len() > 0 {
        let q = r.drop_last();
        assert forall|i: int, j: int|
            0 <= i < j < q.len() && #[trigger] q[j] is Folder implies #[trigger] q[i] is Folder by {
            assert(r[j] is Folder);
        }
        lemma_folders_then_files(q);
        assert(r =~= q.push(r.last()));
        match r.last() {
            TreeItemView::Folder(n) => {
                lemma_folder_items_push(q, n);
                if file_items(q).len() > 0 {
                    let k = folder_items(q).len() as int;
                    assert(q[k] == TreeItemView::File(file_items(q)[0]));
                    assert(r[k] == q[k]);
                    assert(r[r.len() - 1] is Folder);
                }
                assert(file_items(q).len() == 0);
                assert forall|i: int| 0 <= i < folder_items(r).len() implies r[i]
                    == TreeItemView::Folder(#[trigger] folder_items(r)[i]) by {
                    if i < folder_items(q).len() {
                        assert(r[i] == q[i]);
                        assert(folder_items(r)[i] == folder_items(q)[i]);
                    } else {
                        assert(i == q.len());
                    }
                }
            },
            TreeItemView::File(p) => {
                lemma_file_items_push(q, p);
                assert forall|i: int| 0 <= i < folder_items(r).len() implies r[i]
                    == TreeItemView::Folder(#[trigger] folder_items(r)[i]) by {
                    assert(r[i] == q[i]);
                }
                assert forall|i: int| 0 <= i < file_items(r).len() implies r[folder_items(r).len()
                    + i] == TreeItemView::File(#[trigger] file_items(r)[i]) by {
                    if i < file_items(q).len() {
                        assert(r[folder_items(r).len() + i] == q[folder_items(q).len() + i]);
                        assert(file_items(r)[i] == file_items(q)[i]);
                    }
                }
            },
        }
    }
}

/// A level is its folders, each once and in ascending order, followed by its
/// files in ascending order; no other list is a level of the same paths, so
/// the level is fixed by the paths and the depth.
pub proof fn law_level_unique(
    r: Seq<TreeItemView>,
    s: Seq<TreeItemView>,
    paths: Seq<Seq<char>>,
    folder_paths: Seq<Seq<char>>,
    depth: int,
)
    requires
        is_level(r, paths, folder_paths, depth),
        is_level(s, paths, folder_paths, depth),
    ensures
        r == folder_items(r).map_values(|n: Seq<char>| TreeItemView::Folder(n)) + file_items(
            r,
        ).map_values(|p: Seq<char>| TreeItemView::File(p)),
        r == s,
{
    lemma_folders_then_files(r);
    lemma_folders_then_files(s);
    lemma_strictly_sorted_unique(folder_items(r), folder_items(s));
    lemma_sorted_unique(file_items(r), file_items(s));
    assert(r =~= folder_items(r).map_values(|n: Seq<char>| TreeItemView::Folder(n)) + file_items(
        r,
    ).map_values(|p: Seq<char>| TreeItemView::File(p)));
    assert(r =~= s);
}

} // verus!

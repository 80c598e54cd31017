//! The test catalogue of the conformance suite: which suites, groups and
//! tests its rustdoc index lists, and the macro source that turns them into
//! `#[test]` functions.
use vstd::prelude::*;

use vstd::hash_map::StringHashMap;
use vstd::utf8::encode_utf8;

use crate::bytes::{lemma_split_on_nonempty, split_on};
use crate::http1::push_all;

verus! {

/// The id of an item in a rustdoc index.
pub struct ItemId(pub String);

/// A rustdoc JSON document: its format version, its root module and its
/// items by id.
pub struct Document {
    pub format_version: i64,
    pub root: ItemId,
    pub index: StringHashMap<Item>,
}

/// An item of a rustdoc index.
pub struct Item {
    pub id: ItemId,
    pub name: Option<String>,
    pub docs: Option<String>,
    pub inner: ItemInner,
}

/// What kind of item it is.
pub enum ItemInner {
    Module(Module),
    Impl(Impl),
    Function(Function),
    StructField(StructField),
    AssocType(AssocType),
    Variant(Variant),
    Enum(Enum),
    AssocConst(AssocConst),
    Struct(Struct),
    Constant(Constant),
}

/// A module, with the ids of its items in order.
pub struct Module {
    pub items: Vec<ItemId>,
}

pub struct Impl {}

pub struct Function {}

pub struct StructField {}

pub struct AssocType {}

pub struct Variant {}

pub struct Enum {}

pub struct AssocConst {}

pub struct Struct {}

pub struct Constant {}

/// A test function of a group.
pub struct Test {
    pub name: String,
    pub docs: Option<String>,
}

/// A group of tests: a module of a suite whose name starts with `_`.
pub struct Group {
    pub name: String,
    pub docs: Option<String>,
    pub tests: Vec<Test>,
}

/// A suite: a module of the root whose name starts with `rfc`.
pub struct Suite {
    pub name: String,
    pub docs: Option<String>,
    pub groups: Vec<Group>,
}

/// A test, by the UTF-8 bytes of its name and docs.
pub struct TestView {
    pub name: Seq<u8>,
    pub docs: Option<Seq<u8>>,
}

pub struct GroupView {
    pub name: Seq<u8>,
    pub docs: Option<Seq<u8>>,
    pub tests: Seq<TestView>,
}

pub struct SuiteView {
    pub name: Seq<u8>,
    pub docs: Option<Seq<u8>>,
    pub groups: Seq<GroupView>,
}

/// The UTF-8 bytes of a string.
pub open spec fn str_bytes(s: String) -> Seq<u8> {
    encode_utf8(s@)
}

pub open spec fn opt_bytes(o: Option<String>) -> Option<Seq<u8>> {
    match o {
        Some(s) => Some(str_bytes(s)),
        None => None,
    }
}

impl View for Test {
    type V = TestView;

    open spec fn view(&self) -> TestView {
        TestView { name: str_bytes(self.name), docs: opt_bytes(self.docs) }
    }
}

impl View for Group {
    type V = GroupView;

    open spec fn view(&self) -> GroupView {
        GroupView {
            name: str_bytes(self.name),
            docs: opt_bytes(self.docs),
            tests: self.tests@.map_values(|t: Test| t@),
        }
    }
}

impl View for Suite {
    type V = SuiteView;

    open spec fn view(&self) -> SuiteView {
        SuiteView {
            name: str_bytes(self.name),
            docs: opt_bytes(self.docs),
            groups: self.groups@.map_values(|g: Group| g@),
        }
    }
}

/// Why a rustdoc document yields no catalogue.
#[derive(Debug, Clone, Copy, PartialEq, Eq, Structural)]
pub enum CatalogError {
    /// the format version is older than 28
    FormatTooOld,
    /// the root id is not in the index
    MissingRoot,
    /// the root is not a module
    RootNotModule,
    /// a module lists an id that is not in the index
    MissingNode,
    /// a module or function that is looked at has no name
    UnnamedItem,
}

/// The name starts with `rfc`.
pub open spec fn is_suite_name(b: Seq<u8>) -> bool {
    b.len() >= 3 && b[0] == 0x72u8 && b[1] == 0x66u8 && b[2] == 0x63u8
}

/// The name starts with `_`.
pub open spec fn is_group_name(b: Seq<u8>) -> bool {
    b.len() >= 1 && b[0] == 0x5fu8
}

/// The functions among the items, in order; a missing item, or an unnamed
/// function, is an error.
pub open spec fn tests_in(idx: Map<Seq<char>, Item>, ids: Seq<ItemId>) -> Result<
    Seq<TestView>,
    CatalogError,
>
    decreases ids.len(),
{
    if ids.len() == 0 {
        Ok(Seq::empty())
    } else {
        match tests_in(idx, ids.drop_last()) {
            Err(e) => Err(e),
            Ok(ts) => {
                let id = ids.last().0@;
                if !idx.contains_key(id) {
                    Err(CatalogError::MissingNode)
                } else {
                    let item = idx[id];
                    match item.inner {
                        ItemInner::Function(_) => match item.name {
                            Some(n) => Ok(
                                ts.push(TestView { name: str_bytes(n), docs: opt_bytes(item.docs) }),
                            ),
                            None => Err(CatalogError::UnnamedItem),
                        },
                        _ => Ok(ts),
                    }
                }
            },
        }
    }
}

/// The groups among the items, in order: the modules whose name starts with
/// `_`, each with its tests.
pub open spec fn groups_in(idx: Map<Seq<char>, Item>, ids: Seq<ItemId>) -> Result<
    Seq<GroupView>,
    CatalogError,
>
    decreases ids.len(),
{
    if ids.len() == 0 {
        Ok(Seq::empty())
    } else {
        match groups_in(idx, ids.drop_last()) {
            Err(e) => Err(e),
            Ok(gs) => {
                let id = ids.last().0@;
                if !idx.contains_key(id) {
                    Err(CatalogError::MissingNode)
                } else {
                    let item = idx[id];
                    match item.inner {
                        ItemInner::Module(m) => match item.name {
                            Some(n) => if is_group_name(str_bytes(n)) {
                                match tests_in(idx, m.items@) {
                                    Ok(ts) => Ok(
                                        gs.push(
                                            GroupView {
                                                name: str_bytes(n),
                                                docs: opt_bytes(item.docs),
                                                tests: ts,
                                            },
                                        ),
                                    ),
                                    Err(e) => Err(e),
                                }
                            } else {
                                Ok(gs)
                            },
                            None => Err(CatalogError::UnnamedItem),
                        },
                        _ => Ok(gs),
                    }
                }
            },
        }
    }
}

/// The suites among the items, in order: the modules whose name starts with
/// `rfc`, each with its groups.
pub open spec fn suites_in(idx: Map<Seq<char>, Item>, ids: Seq<ItemId>) -> Result<
    Seq<SuiteView>,
    CatalogError,
>
    decreases ids.len(),
{
    if ids.len() == 0 {
        Ok(Seq::empty())
    } else {
        match suites_in(idx, ids.drop_last()) {
            Err(e) => Err(e),
            Ok(ss) => {
                let id = ids.last().0@;
                if !idx.contains_key(id) {
                    Err(CatalogError::MissingNode)
                } else {
                    let item = idx[id];
                    match item.inner {
                        ItemInner::Module(m) => match item.name {
                            Some(n) => if is_suite_name(str_bytes(n)) {
                                match groups_in(idx, m.items@) {
                                    Ok(gs) => Ok(
                                        ss.push(
                                            SuiteView {
                                                name: str_bytes(n),
                                                docs: opt_bytes(item.docs),
                                                groups: gs,
                                            },
                                        ),
                                    ),
                                    Err(e) => Err(e),
                                }
                            } else {
                                Ok(ss)
                            },
                            None => Err(CatalogError::UnnamedItem),
                        },
                        _ => Ok(ss),
                    }
                }
            },
        }
    }
}

/// The catalogue of a document: its version must be 28 or newer, and its
/// root a module, whose suites are listed.
pub open spec fn catalog_of(format_version: i64, root: Seq<char>, idx: Map<Seq<char>, Item>) -> Result<
    Seq<SuiteView>,
    CatalogError,
> {
    if format_version < 28 {
        Err(CatalogError::FormatTooOld)
    } else if !idx.contains_key(root) {
        Err(CatalogError::MissingRoot)
    } else {
        match idx[root].inner {
            ItemInner::Module(m) => suites_in(idx, m.items@),
            _ => Err(CatalogError::RootNotModule),
        }
    }
}

fn clone_docs(d: &Option<String>) -> (r: Option<String>)
    ensures
        r == *d,
{
    match d {
        Some(s) => Some(s.clone()),
        None => None,
    }
}

fn starts_with_rfc(s: &String) -> (r: bool)
    ensures
        r == is_suite_name(str_bytes(*s)),
{
    let b = s.as_str().as_bytes();
    b.len() >= 3 && b[0] == 0x72u8 && b[1] == 0x66u8 && b[2] == 0x63u8
}

fn starts_with_underscore(s: &String) -> (r: bool)
    ensures
        r == is_group_name(str_bytes(*s)),
{
    let b = s.as_str().as_bytes();
    b.len() >= 1 && b[0] == 0x5fu8
}

/// The tests among the items.
fn collect_tests(index: &StringHashMap<Item>, ids: &Vec<ItemId>) -> (r: Result<Vec<Test>, CatalogError>)
    ensures
        match tests_in(index@, ids@) {
            Ok(v) => r matches Ok(ts) && ts@.map_values(|t: Test| t@) == v,
            Err(e) => r == Err::<Vec<Test>, CatalogError>(e),
        },
{
    let mut out: Vec<Test> = Vec::new();
    let mut k: usize = 0;
    assert(ids@.take(0) =~= Seq::<ItemId>::empty());
    assert(out@.map_values(|t: Test| t@) =~= Seq::<TestView>::empty());
    while k < ids.len()
        invariant
            k <= ids@.len(),
            tests_in(index@, ids@.take(k as int)) == Ok::<Seq<TestView>, CatalogError>(
                out@.map_values(|t: Test| t@),
            ),
        decreases ids@.len() - k,
    {
        let ghost pre = ids@.take(k as int);
        assert(ids@.take(k + 1).drop_last() =~= pre);
        let id = &ids[k];
        match index.get(id.0.as_str()) {
            None => {
                proof {
                    lemma_tests_err_extends(index@, ids@, k + 1);
                }
                return Err(CatalogError::MissingNode);
            },
            Some(item) => {
                match &item.inner {
                    ItemInner::Function(_) => match &item.name {
                        Some(n) => {
                            let t = Test { name: n.clone(), docs: clone_docs(&item.docs) };
                            out.push(t);
                            assert(out@.map_values(|t: Test| t@) =~= tests_in(
                                index@,
                                ids@.take(k + 1),
                            )->Ok_0);
                        },
                        None => {
                            proof {
                                lemma_tests_err_extends(index@, ids@, k + 1);
                            }
                            return Err(CatalogError::UnnamedItem);
                        },
                    },
                    _ => {},
                }
            },
        }
        k = k + 1;
    }
    assert(ids@.take(k as int) =~= ids@);
    Ok(out)
}

/// An error among the first `k` items is the error of them all.
proof fn lemma_tests_err_extends(idx: Map<Seq<char>, Item>, ids: Seq<ItemId>, k: int)
    requires
        0 <= k <= ids.len(),
        tests_in(idx, ids.take(k)) is Err,
    ensures
        tests_in(idx, ids) == tests_in(idx, ids.take(k)),
    decreases ids.len() - k,
{
    if k < ids.len() {
        assert(ids.take(k + 1).drop_last() =~= ids.take(k));
        lemma_tests_err_extends(idx, ids, k + 1);
    } else {
        assert(ids.take(k) =~= ids);
    }
}

/// The groups among the items.
fn collect_groups(index: &StringHashMap<Item>, ids: &Vec<ItemId>) -> (r: Result<Vec<Group>, CatalogError>)
    ensures
        match groups_in(index@, ids@) {
            Ok(v) => r matches Ok(gs) && gs@.map_values(|g: Group| g@) == v,
            Err(e) => r == Err::<Vec<Group>, CatalogError>(e),
        },
{
    let mut out: Vec<Group> = Vec::new();
    let mut k: usize = 0;
    assert(ids@.take(0) =~= Seq::<ItemId>::empty());
    assert(out@.map_values(|g: Group| g@) =~= Seq::<GroupView>::empty());
    while k < ids.len()
        invariant
            k <= ids@.len(),
            groups_in(index@, ids@.take(k as int)) == Ok::<Seq<GroupView>, CatalogError>(
                out@.map_values(|g: Group| g@),
            ),
        decreases ids@.len() - k,
    {
        let ghost pre = ids@.take(k as int);
        assert(ids@.take(k + 1).drop_last() =~= pre);
        let id = &ids[k];
        match index.get(id.0.as_str()) {
            None => {
                proof {
                    lemma_groups_err_extends(index@, ids@, k + 1);
                }
                return Err(CatalogError::MissingNode);
            },
            Some(item) => {
                match &item.inner {
                    ItemInner::Module(m) => match &item.name {
                        Some(n) => {
                            if starts_with_underscore(n) {
                                match collect_tests(index, &m.items) {
                                    Ok(tests) => {
                                        let g = Group {
                                            name: n.clone(),
                                            docs: clone_docs(&item.docs),
                                            tests,
                                        };
                                        out.push(g);
                                        assert(out@.map_values(|g: Group| g@) =~= groups_in(
                                            index@,
                                            ids@.take(k + 1),
                                        )->Ok_0);
                                    },
                                    Err(e) => {
                                        proof {
                                            lemma_groups_err_extends(index@, ids@, k + 1);
                                        }
                                        return Err(e);
                                    },
                                }
                            }
                        },
                        None => {
                            proof {
                                lemma_groups_err_extends(index@, ids@, k + 1);
                            }
                            return Err(CatalogError::UnnamedItem);
                        },
                    },
                    _ => {},
                }
            },
        }
        k = k + 1;
    }
    assert(ids@.take(k as int) =~= ids@);
    Ok(out)
}

proof fn lemma_groups_err_extends(idx: Map<Seq<char>, Item>, ids: Seq<ItemId>, k: int)
    requires
        0 <= k <= ids.len(),
        groups_in(idx, ids.take(k)) is Err,
    ensures
        groups_in(idx, ids) == groups_in(idx, ids.take(k)),
    decreases ids.len() - k,
{
    if k < ids.len() {
        assert(ids.take(k + 1).drop_last() =~= ids.take(k));
        lemma_groups_err_extends(idx, ids, k + 1);
    } else {
        assert(ids.take(k) =~= ids);
    }
}

/// The suites among the items.
fn collect_suites(index: &StringHashMap<Item>, ids: &Vec<ItemId>) -> (r: Result<Vec<Suite>, CatalogError>)
    ensures
        match suites_in(index@, ids@) {
            Ok(v) => r matches Ok(ss) && ss@.map_values(|s: Suite| s@) == v,
            Err(e) => r == Err::<Vec<Suite>, CatalogError>(e),
        },
{
    let mut out: Vec<Suite> = Vec::new();
    let mut k: usize = 0;
    assert(ids@.take(0) =~= Seq::<ItemId>::empty());
    assert(out@.map_values(|s: Suite| s@) =~= Seq::<SuiteView>::empty());
    while k < ids.len()
        invariant
            k <= ids@.len(),
            suites_in(index@, ids@.take(k as int)) == Ok::<Seq<SuiteView>, CatalogError>(
                out@.map_values(|s: Suite| s@),
            ),
        decreases ids@.len() - k,
    {
        let ghost pre = ids@.take(k as int);
        assert(ids@.take(k + 1).drop_last() =~= pre);
        let id = &ids[k];
        match index.get(id.0.as_str()) {
            None => {
                proof {
                    lemma_suites_err_extends(index@, ids@, k + 1);
                }
                return Err(CatalogError::MissingNode);
            },
            Some(item) => {
                match &item.inner {
                    ItemInner::Module(m) => match &item.name {
                        Some(n) => {
                            if starts_with_rfc(n) {
                                match collect_groups(index, &m.items) {
                                    Ok(groups) => {
                                        let s = Suite {
                                            name: n.clone(),
                                            docs: clone_docs(&item.docs),
                                            groups,
                                        };
                                        out.push(s);
                                        assert(out@.map_values(|s: Suite| s@) =~= suites_in(
                                            index@,
                                            ids@.take(k + 1),
                                        )->Ok_0);
                                    },
                                    Err(e) => {
                                        proof {
                                            lemma_suites_err_extends(index@, ids@, k + 1);
                                        }
                                        return Err(e);
                                    },
                                }
                            }
                        },
                        None => {
                            proof {
                                lemma_suites_err_extends(index@, ids@, k + 1);
                            }
                            return Err(CatalogError::UnnamedItem);
                        },
                    },
                    _ => {},
                }
            },
        }
        k = k + 1;
    }
    assert(ids@.take(k as int) =~= ids@);
    Ok(out)
}

proof fn lemma_suites_err_extends(idx: Map<Seq<char>, Item>, ids: Seq<ItemId>, k: int)
    requires
        0 <= k <= ids.len(),
        suites_in(idx, ids.take(k)) is Err,
    ensures
        suites_in(idx, ids) == suites_in(idx, ids.take(k)),
    decreases ids.len() - k,
{
    if k < ids.len() {
        assert(ids.take(k + 1).drop_last() =~= ids.take(k));
        lemma_suites_err_extends(idx, ids, k + 1);
    } else {
        assert(ids.take(k) =~= ids);
    }
}

impl Document {
    /// A document of the given format version and root, with no items yet.
    pub fn new(format_version: i64, root: ItemId) -> (r: Document)
        ensures
            r.format_version == format_version,
            r.root == root,
            r.index@ == Map::<Seq<char>, Item>::empty(),
    {
        Document { format_version, root, index: StringHashMap::new() }
    }

    /// Adds an item to the index, under its id.
    pub fn insert(&mut self, id: ItemId, item: Item)
        ensures
            final(self).format_version == old(self).format_version,
            final(self).root == old(self).root,
            final(self).index@ == old(self).index@.insert(id.0@, item),
    {
        self.index.insert(id.0, item);
    }

    /// The catalogue of the document: the suites of its root module, with
    /// their groups and tests, in the order the modules list them.
    pub fn suites(&self) -> (r: Result<Vec<Suite>, CatalogError>)
        ensures
            match catalog_of(self.format_version, self.root.0@, self.index@) {
                Ok(v) => r matches Ok(ss) && ss@.map_values(|s: Suite| s@) == v,
                Err(e) => r == Err::<Vec<Suite>, CatalogError>(e),
            },
    {
        if self.format_version < 28 {
            return Err(CatalogError::FormatTooOld);
        }
        match self.index.get(self.root.0.as_str()) {
            None => Err(CatalogError::MissingRoot),
            Some(root) => match &root.inner {
                ItemInner::Module(m) => collect_suites(&self.index, &m.items),
                _ => Err(CatalogError::RootNotModule),
            },
        }
    }
}

/// A line without the carriage return that ended it, if one did.
pub open spec fn strip_cr(l: Seq<u8>) -> Seq<u8> {
    if l.len() > 0 && l.last() == 0x0du8 {
        l.drop_last()
    } else {
        l
    }
}

/// The lines of a text, as `str::lines` gives them: split at `\n`, each
/// ended line without a `\r` before its `\n`, and no empty line after a
/// final `\n`.
pub open spec fn text_lines(b: Seq<u8>) -> Seq<Seq<u8>> {
    let s = split_on(b, 0x0au8);
    let ended = s.drop_last().map_values(|l: Seq<u8>| strip_cr(l));
    if s.last().len() == 0 {
        ended
    } else {
        ended.push(s.last())
    }
}

/// The lines of a text.
pub fn text_lines_of(s: &str) -> (r: Vec<Vec<u8>>)
    ensures
        r@.map_values(|l: Vec<u8>| l@) == text_lines(encode_utf8(s@)),
{
    let b = s.as_bytes();
    let mut done: Vec<Vec<u8>> = Vec::new();
    let mut cur: Vec<u8> = Vec::new();
    let mut k: usize = 0;
    assert(b@.take(0) =~= Seq::<u8>::empty());
    assert(done@.map_values(|l: Vec<u8>| l@) =~= Seq::<Seq<u8>>::empty());
    while k < b.len()
        invariant
            k <= b@.len(),
            split_on(b@.take(k as int), 0x0au8).len() >= 1,
            done@.map_values(|l: Vec<u8>| l@) == split_on(b@.take(k as int), 0x0au8).drop_last().map_values(
                |l: Seq<u8>| strip_cr(l),
            ),
            cur@ == split_on(b@.take(k as int), 0x0au8).last(),
        decreases b@.len() - k,
    {
        let ghost pre = b@.take(k as int);
        let ghost post = b@.take(k + 1);
        assert(post.drop_last() =~= pre);
        assert(post.last() == b@[k as int]);
        proof {
            lemma_split_on_nonempty(post, 0x0au8);
        }
        if b[k] == 0x0a {
            let ghost sp = split_on(pre, 0x0au8);
            let ghost old_done = done@;
            let line = strip_cr_of(cur);
            let ghost line_v = line@;
            assert(line_v == strip_cr(sp.last()));
            assert(old_done.map_values(|l: Vec<u8>| l@).len() == old_done.len());
            assert(old_done.len() == sp.len() - 1);
            done.push(line);
            cur = Vec::new();
            assert(split_on(post, 0x0au8).drop_last() =~= sp);
            assert(sp =~= sp.drop_last().push(sp.last()));
            assert(done@ =~= old_done.push(done@.last()));
            assert(old_done.map_values(|l: Vec<u8>| l@) == sp.drop_last().map_values(
                |l: Seq<u8>| strip_cr(l),
            ));
            assert forall|i: int| 0 <= i < done@.len() implies #[trigger] done@[i]@ == strip_cr(
                sp[i],
            ) by {
                if i == old_done.len() {
                    assert(done@[i]@ == line_v);
                } else {
                    assert(old_done.map_values(|l: Vec<u8>| l@)[i] == sp.drop_last().map_values(
                        |l: Seq<u8>| strip_cr(l),
                    )[i]);
                }
            }
            assert(done@.map_values(|l: Vec<u8>| l@) =~= split_on(post, 0x0au8).drop_last().map_values(
                |l: Seq<u8>| strip_cr(l),
            ));
            assert(cur@ =~= split_on(post, 0x0au8).last());
        } else {
            cur.push(b[k]);
            assert(split_on(post, 0x0au8).drop_last() =~= split_on(pre, 0x0au8).drop_last());
        }
        k = k + 1;
    }
    assert(b@.take(k as int) =~= b@);
    if cur.len() > 0 {
        done.push(cur);
        assert(done@.map_values(|l: Vec<u8>| l@) =~= text_lines(b@));
    } else {
        assert(done@.map_values(|l: Vec<u8>| l@) =~= text_lines(b@));
    }
    done
}

fn strip_cr_of(l: Vec<u8>) -> (r: Vec<u8>)
    ensures
        r@ == strip_cr(l@),
{
    let mut l = l;
    if l.len() > 0 && l[l.len() - 1] == 0x0d {
        l.pop();
    }
    l
}

/// The UTF-8 bytes of a text.
pub open spec fn lit(s: &str) -> Seq<u8> {
    encode_utf8(s@)
}

/// A newline.
pub open spec fn nl() -> Seq<u8> {
    seq![0x0au8]
}

/// The pieces, one after another.
pub open spec fn flat(p: Seq<Seq<u8>>) -> Seq<u8>
    decreases p.len(),
{
    if p.len() == 0 {
        Seq::empty()
    } else {
        flat(p.drop_last()) + p.last()
    }
}

/// The doc comment lines for the docs: `/// ` and each line.
pub open spec fn doc_block(docs: Option<Seq<u8>>) -> Seq<u8> {
    let text = match docs {
        Some(d) => d,
        None => Seq::empty(),
    };
    flat(text_lines(text).map_values(|l: Seq<u8>| lit("/// ") + l + nl()))
}

/// The `#[test]` function of a test, which runs the test function of its
/// group with the macro's body.
pub open spec fn test_block(t: TestView) -> Seq<u8> {
    nl() + doc_block(t.docs) + lit("#[test]") + nl() + lit("fn ") + t.name + lit("() {") + nl()
        + lit("use __group::") + t.name + lit(" as test;") + nl() + lit("$body") + nl() + lit("}")
        + nl()
}

/// The module of a group, with its tests.
pub open spec fn group_block(g: GroupView) -> Seq<u8> {
    nl() + doc_block(g.docs) + lit("mod ") + g.name + lit(" {") + nl() + lit("use super::__suite::")
        + g.name + lit(" as __group;") + nl() + flat(g.tests.map_values(|t: TestView| test_block(t)))
        + lit("}") + nl()
}

/// The test-only module of a suite, with its groups.
pub open spec fn suite_block(s: SuiteView) -> Seq<u8> {
    nl() + doc_block(s.docs) + lit("#[cfg(test)]") + nl() + lit("mod ") + s.name + lit(" {") + nl()
        + lit("use ::httpwg::") + s.name + lit(" as __suite;") + nl() + flat(
        s.groups.map_values(|g: GroupView| group_block(g)),
    ) + lit("}") + nl()
}

/// The opening lines of the macro source, up to the macro's only rule.
pub open spec fn macro_head() -> Seq<u8> {
    lit("//! Macros to help generate code for all suites/groups/tests of the httpwg crate") + nl()
        + nl() + lit("// This file is automatically @generated by httpwg-gen") + nl() + lit(
        "// It is not intended for manual editing",
    ) + nl() + nl() + lit("/// This generates a module tree with some #[test] functions.") + nl()
        + lit("/// The `$body` argument is pasted inside those unit test, and") + nl() + lit(
        "/// in that scope, `test` is the `httpwg` function you can use",
    ) + nl() + lit("/// to run the test (that takes a `mut conn: Conn<IO>`)") + nl() + lit(
        "#[macro_export]",
    ) + nl() + lit("macro_rules! tests {") + nl() + lit("  ($body: tt) => {") + nl()
}

/// The source of the `tests!` macro for the suites.
pub open spec fn macro_text(suites: Seq<SuiteView>) -> Seq<u8> {
    macro_head() + flat(suites.map_values(|s: SuiteView| suite_block(s))) + lit("}") + nl() + lit("}")
        + nl()
}

fn push_str(out: &mut Vec<u8>, s: &str)
    ensures
        final(out)@ == old(out)@ + lit(s),
{
    push_all(out, s.as_bytes());
}

fn push_line(out: &mut Vec<u8>, s: &str)
    ensures
        final(out)@ == old(out)@ + lit(s) + nl(),
{
    push_all(out, s.as_bytes());
    out.push(0x0a);
}

fn push_name(out: &mut Vec<u8>, s: &String)
    ensures
        final(out)@ == old(out)@ + str_bytes(*s),
{
    push_all(out, s.as_str().as_bytes());
}

fn write_docs(out: &mut Vec<u8>, docs: &Option<String>)
    ensures
        final(out)@ == old(out)@ + doc_block(opt_bytes(*docs)),
{
    let ghost start = out@;
    let lines = match docs {
        Some(d) => text_lines_of(d.as_str()),
        None => text_lines_of(""),
    };
    let ghost ls = lines@.map_values(|l: Vec<u8>| l@);
    let ghost pieces = ls.map_values(|l: Seq<u8>| lit("/// ") + l + nl());
    proof {
        reveal_strlit("");
        assert(encode_utf8(""@) =~= Seq::<u8>::empty()) by {
            vstd::utf8::encode_utf8_decode_utf8(""@);
        }
        assert(ls == text_lines(match opt_bytes(*docs) {
            Some(d) => d,
            None => Seq::<u8>::empty(),
        }));
    }
    let mut k: usize = 0;
    assert(pieces.take(0) =~= Seq::<Seq<u8>>::empty());
    while k < lines.len()
        invariant
            k <= lines@.len(),
            ls == lines@.map_values(|l: Vec<u8>| l@),
            pieces == ls.map_values(|l: Seq<u8>| lit("/// ") + l + nl()),
            out@ == start + flat(pieces.take(k as int)),
        decreases lines@.len() - k,
    {
        assert(pieces.take(k + 1).drop_last() =~= pieces.take(k as int));
        push_str(out, "/// ");
        push_all(out, lines[k].as_slice());
        out.push(0x0a);
        assert(out@ =~= start + flat(pieces.take(k + 1)));
        k = k + 1;
    }
    assert(pieces.take(k as int) =~= pieces);
}

proof fn lemma_append(start: Seq<u8>, acc: Seq<u8>, x: Seq<u8>)
    ensures
        (start + acc) + x == start + (acc + x),
{
    assert((start + acc) + x =~= start + (acc + x));
}

#[verifier::rlimit(30)]
fn write_test(out: &mut Vec<u8>, t: &Test)
    ensures
        final(out)@ == old(out)@ + test_block(t@),
{
    let ghost start = out@;
    let ghost mut acc = nl();
    out.push(0x0a);
    assert(out@ =~= start + acc);
    write_docs(out, &t.docs);
    proof {
        lemma_append(start, acc, doc_block(t@.docs));
        acc = acc + doc_block(t@.docs);
    }
    push_line(out, "#[test]");
    proof {
        lemma_append(start, acc, lit("#[test]"));
        acc = acc + lit("#[test]");
        lemma_append(start, acc, nl());
        acc = acc + nl();
    }
    push_str(out, "fn ");
    proof {
        lemma_append(start, acc, lit("fn "));
        acc = acc + lit("fn ");
    }
    push_name(out, &t.name);
    proof {
        lemma_append(start, acc, t@.name);
        acc = acc + t@.name;
    }
    push_line(out, "() {");
    proof {
        lemma_append(start, acc, lit("() {"));
        acc = acc + lit("() {");
        lemma_append(start, acc, nl());
        acc = acc + nl();
    }
    push_str(out, "use __group::");
    proof {
        lemma_append(start, acc, lit("use __group::"));
        acc = acc + lit("use __group::");
    }
    push_name(out, &t.name);
    proof {
        lemma_append(start, acc, t@.name);
        acc = acc + t@.name;
    }
    push_line(out, " as test;");
    proof {
        lemma_append(start, acc, lit(" as test;"));
        acc = acc + lit(" as test;");
        lemma_append(start, acc, nl());
        acc = acc + nl();
    }
    push_line(out, "$body");
    proof {
        lemma_append(start, acc, lit("$body"));
        acc = acc + lit("$body");
        lemma_append(start, acc, nl());
        acc = acc + nl();
    }
    push_line(out, "}");
    proof {
        lemma_append(start, acc, lit("}"));
        acc = acc + lit("}");
        lemma_append(start, acc, nl());
        acc = acc + nl();
    }
    assert(acc == test_block(t@));
}

fn write_tests(out: &mut Vec<u8>, tests: &Vec<Test>)
    ensures
        final(out)@ == old(out)@ + flat(
            tests@.map_values(|t: Test| t@).map_values(|t: TestView| test_block(t)),
        ),
{
    let ghost start = out@;
    let ghost pieces = tests@.map_values(|t: Test| t@).map_values(|t: TestView| test_block(t));
    let mut k: usize = 0;
    assert(pieces.take(0) =~= Seq::<Seq<u8>>::empty());
    while k < tests.len()
        invariant
            k <= tests@.len(),
            pieces == tests@.map_values(|t: Test| t@).map_values(|t: TestView| test_block(t)),
            out@ == start + flat(pieces.take(k as int)),
        decreases tests@.len() - k,
    {
        assert(pieces.take(k + 1).drop_last() =~= pieces.take(k as int));
        write_test(out, &tests[k]);
        assert(out@ =~= start + flat(pieces.take(k + 1)));
        k = k + 1;
    }
    assert(pieces.take(k as int) =~= pieces);
}

fn write_group(out: &mut Vec<u8>, g: &Group)
    ensures
        final(out)@ == old(out)@ + group_block(g@),
{
    let ghost start = out@;
    let ghost mut acc = nl();
    out.push(0x0a);
    assert(out@ =~= start + acc);
    write_docs(out, &g.docs);
    proof {
        lemma_append(start, acc, doc_block(g@.docs));
        acc = acc + doc_block(g@.docs);
    }
    push_str(out, "mod ");
    proof {
        lemma_append(start, acc, lit("mod "));
        acc = acc + lit("mod ");
    }
    push_name(out, &g.name);
    proof {
        lemma_append(start, acc, g@.name);
        acc = acc + g@.name;
    }
    push_line(out, " {");
    proof {
        lemma_append(start, acc, lit(" {"));
        acc = acc + lit(" {");
        lemma_append(start, acc, nl());
        acc = acc + nl();
    }
    push_str(out, "use super::__suite::");
    proof {
        lemma_append(start, acc, lit("use super::__suite::"));
        acc = acc + lit("use super::__suite::");
    }
    push_name(out, &g.name);
    proof {
        lemma_append(start, acc, g@.name);
        acc = acc + g@.name;
    }
    push_line(out, " as __group;");
    proof {
        lemma_append(start, acc, lit(" as __group;"));
        acc = acc + lit(" as __group;");
        lemma_append(start, acc, nl());
        acc = acc + nl();
    }
    write_tests(out, &g.tests);
    proof {
        lemma_append(start, acc, flat(g@.tests.map_values(|t: TestView| test_block(t))));
        acc = acc + flat(g@.tests.map_values(|t: TestView| test_block(t)));
    }
    push_line(out, "}");
    proof {
        lemma_append(start, acc, lit("}"));
        acc = acc + lit("}");
        lemma_append(start, acc, nl());
        acc = acc + nl();
    }
    assert(acc == group_block(g@));
}

fn write_groups(out: &mut Vec<u8>, groups: &Vec<Group>)
    ensures
        final(out)@ == old(out)@ + flat(
            groups@.map_values(|g: Group| g@).map_values(|g: GroupView| group_block(g)),
        ),
{
    let ghost start = out@;
    let ghost pieces = groups@.map_values(|g: Group| g@).map_values(|g: GroupView| group_block(g));
    let mut k: usize = 0;
    assert(pieces.take(0) =~= Seq::<Seq<u8>>::empty());
    while k < groups.len()
        invariant
            k <= groups@.len(),
            pieces == groups@.map_values(|g: Group| g@).map_values(|g: GroupView| group_block(g)),
            out@ == start + flat(pieces.take(k as int)),
        decreases groups@.len() - k,
    {
        assert(pieces.take(k + 1).drop_last() =~= pieces.take(k as int));
        write_group(out, &groups[k]);
        assert(out@ =~= start + flat(pieces.take(k + 1)));
        k = k + 1;
    }
    assert(pieces.take(k as int) =~= pieces);
}

fn write_suite(out: &mut Vec<u8>, s: &Suite)
    ensures
        final(out)@ == old(out)@ + suite_block(s@),
{
    let ghost start = out@;
    let ghost mut acc = nl();
    out.push(0x0a);
    assert(out@ =~= start + acc);
    write_docs(out, &s.docs);
    proof {
        lemma_append(start, acc, doc_block(s@.docs));
        acc = acc + doc_block(s@.docs);
    }
    push_line(out, "#[cfg(test)]");
    proof {
        lemma_append(start, acc, lit("#[cfg(test)]"));
        acc = acc + lit("#[cfg(test)]");
        lemma_append(start, acc, nl());
        acc = acc + nl();
    }
    push_str(out, "mod ");
    proof {
        lemma_append(start, acc, lit("mod "));
        acc = acc + lit("mod ");
    }
    push_name(out, &s.name);
    proof {
        lemma_append(start, acc, s@.name);
        acc = acc + s@.name;
    }
    push_line(out, " {");
    proof {
        lemma_append(start, acc, lit(" {"));
        acc = acc + lit(" {");
        lemma_append(start, acc, nl());
        acc = acc + nl();
    }
    push_str(out, "use ::httpwg::");
    proof {
        lemma_append(start, acc, lit("use ::httpwg::"));
        acc = acc + lit("use ::httpwg::");
    }
    push_name(out, &s.name);
    proof {
        lemma_append(start, acc, s@.name);
        acc = acc + s@.name;
    }
    push_line(out, " as __suite;");
    proof {
        lemma_append(start, acc, lit(" as __suite;"));
        acc = acc + lit(" as __suite;");
        lemma_append(start, acc, nl());
        acc = acc + nl();
    }
    write_groups(out, &s.groups);
    proof {
        lemma_append(start, acc, flat(s@.groups.map_values(|g: GroupView| group_block(g))));
        acc = acc + flat(s@.groups.map_values(|g: GroupView| group_block(g)));
    }
    push_line(out, "}");
    proof {
        lemma_append(start, acc, lit("}"));
        acc = acc + lit("}");
        lemma_append(start, acc, nl());
        acc = acc + nl();
    }
    assert(acc == suite_block(s@));
}

/// The source of the `tests!` macro, which has a `#[test]` function for
/// each test of each group of each suite.
pub fn macro_source(suites: &Vec<Suite>) -> (r: Vec<u8>)
    ensures
        r@ == macro_text(suites@.map_values(|s: Suite| s@)),
{
    let mut out: Vec<u8> = Vec::new();
    push_line(&mut out, "//! Macros to help generate code for all suites/groups/tests of the httpwg crate");
    out.push(0x0a);
    push_line(&mut out, "// This file is automatically @generated by httpwg-gen");
    push_line(&mut out, "// It is not intended for manual editing");
    out.push(0x0a);
    push_line(&mut out, "/// This generates a module tree with some #[test] functions.");
    push_line(&mut out, "/// The `$body` argument is pasted inside those unit test, and");
    push_line(&mut out, "/// in that scope, `test` is the `httpwg` function you can use");
    push_line(&mut out, "/// to run the test (that takes a `mut conn: Conn<IO>`)");
    push_line(&mut out, "#[macro_export]");
    push_line(&mut out, "macro_rules! tests {");
    push_line(&mut out, "  ($body: tt) => {");
    assert(out@ =~= macro_head());
    let ghost views = suites@.map_values(|s: Suite| s@);
    let ghost pieces = views.map_values(|s: SuiteView| suite_block(s));
    let mut k: usize = 0;
    assert(pieces.take(0) =~= Seq::<Seq<u8>>::empty());
    while k < suites.len()
        invariant
            k <= suites@.len(),
            views == suites@.map_values(|s: Suite| s@),
            pieces == views.map_values(|s: SuiteView| suite_block(s)),
            out@ == macro_head() + flat(pieces.take(k as int)),
        decreases suites@.len() - k,
    {
        assert(pieces.take(k + 1).drop_last() =~= pieces.take(k as int));
        write_suite(&mut out, &suites[k]);
        assert(out@ =~= macro_head() + flat(pieces.take(k + 1)));
        k = k + 1;
    }
    assert(pieces.take(k as int) =~= pieces);
    push_line(&mut out, "}");
    push_line(&mut out, "}");
    assert(out@ =~= macro_text(views));
    out
}

} // verus!

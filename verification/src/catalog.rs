//! The catalog: named shop sections, each with the items it stocks.

use vstd::prelude::*;

use crate::sorting::{is_sorted_by_lowercase, lemma_sort_twice, sort_by_lowercase};
use crate::text::{concat2, concat3, is_blank, str_eq, str_is_blank};

verus! {

/// A shop section and the items it stocks, in catalog order.
pub struct Section {
    pub name: String,
    pub items: Vec<String>,
}

/// The whole catalog, sections in order.
pub struct Catalog {
    pub sections: Vec<Section>,
}

/// Why the catalog could not be loaded, with the outside error held as its message.
pub enum LoadError {
    /// The file could not be read.
    Io { path: String, source: String },
    /// The file's text is not a catalog.
    Parse(String),
}

/// The names of the sections, in order.
pub open spec fn section_names(secs: Seq<Section>) -> Seq<Seq<char>> {
    secs.map_values(|s: Section| s.name@)
}

/// The items of all sections, section by section, each section's in its order.
pub open spec fn catalog_items_of(secs: Seq<Section>) -> Seq<Seq<char>>
    decreases secs.len(),
{
    if secs.len() == 0 {
        seq![]
    } else {
        catalog_items_of(secs.drop_last()) + secs.last().items.deep_view()
    }
}

/// `after` is `before` with the items of every section stably sorted by their
/// lower-case form; names and section order are kept.
pub open spec fn items_sorted(before: Seq<Section>, after: Seq<Section>) -> bool {
    &&& after.len() == before.len()
    &&& forall|i: int|
        0 <= i < after.len() ==> {
            &&& #[trigger] after[i].name@ == before[i].name@
            &&& is_sorted_by_lowercase(before[i].items.deep_view(), after[i].items.deep_view())
        }
}

/// The message for a blank section name.
pub open spec fn empty_name_msg() -> Seq<char> {
    "a section has an empty name"@
}

/// The message for a section name that an earlier section already has.
pub open spec fn duplicate_section_msg(name: Seq<char>) -> Seq<char> {
    "duplicate section: "@ + name
}

/// The message for a section without items.
pub open spec fn no_items_msg(name: Seq<char>) -> Seq<char> {
    "section '"@ + name + "' has no items"@
}

/// The message for a blank item name.
pub open spec fn empty_item_msg(name: Seq<char>) -> Seq<char> {
    "section '"@ + name + "' has an empty item name"@
}

/// The message for an item that occurs earlier in the same section.
pub open spec fn duplicate_item_msg(item: Seq<char>, name: Seq<char>) -> Seq<char> {
    "duplicate item '"@ + item + "' in section '"@ + name + "'"@
}

/// The problems with the items of the section `name`, in item order.
pub open spec fn item_issues(name: Seq<char>, items: Seq<Seq<char>>) -> Seq<Seq<char>>
    decreases items.len(),
{
    if items.len() == 0 {
        seq![]
    } else {
        let prev = item_issues(name, items.drop_last());
        let item = items.last();
        if is_blank(item) {
            prev.push(empty_item_msg(name))
        } else if items.drop_last().contains(item) {
            prev.push(duplicate_item_msg(item, name))
        } else {
            prev
        }
    }
}

/// The problems with the section `sec`, where `earlier` are the names of the
/// sections before it.
pub open spec fn section_issues(earlier: Seq<Seq<char>>, sec: Section) -> Seq<Seq<char>> {
    let name = sec.name@;
    let name_issue: Seq<Seq<char>> = if is_blank(name) {
        seq![empty_name_msg()]
    } else if earlier.contains(name) {
        seq![duplicate_section_msg(name)]
    } else {
        seq![]
    };
    let items_issue: Seq<Seq<char>> = if sec.items@.len() == 0 {
        seq![no_items_msg(name)]
    } else {
        seq![]
    };
    name_issue + items_issue + item_issues(name, sec.items.deep_view())
}

/// All the problems with the sections, section by section.
pub open spec fn catalog_issues(secs: Seq<Section>) -> Seq<Seq<char>>
    decreases secs.len(),
{
    if secs.len() == 0 {
        seq![]
    } else {
        catalog_issues(secs.drop_last()) + section_issues(
            section_names(secs.drop_last()),
            secs.last(),
        )
    }
}

/// The items of a section are valid: none is blank and none occurs twice.
pub open spec fn items_valid(items: Seq<Seq<char>>) -> bool {
    &&& forall|i: int| 0 <= i < items.len() ==> !is_blank(#[trigger] items[i])
    &&& forall|i: int, j: int| 0 <= i < j < items.len() ==> #[trigger] items[i] != #[trigger] items[j]
}

/// A valid catalog: every section has a name that is not blank and that no
/// other section has, at least one item, and valid items.
pub open spec fn catalog_valid(secs: Seq<Section>) -> bool {
    &&& forall|i: int| 0 <= i < secs.len() ==> !is_blank(#[trigger] secs[i].name@)
    &&& forall|i: int, j: int|
        0 <= i < j < secs.len() ==> #[trigger] secs[i].name@ != #[trigger] secs[j].name@
    &&& forall|i: int| 0 <= i < secs.len() ==> #[trigger] secs[i].items@.len() > 0
    &&& forall|i: int| 0 <= i < secs.len() ==> items_valid(#[trigger] secs[i].items.deep_view())
}

/// The text of the catalog: each section's name on a line, then each of its
/// items on a line of its own after two spaces and a dash.
pub open spec fn catalog_text(secs: Seq<Section>) -> Seq<char>
    decreases secs.len(),
{
    if secs.len() == 0 {
        seq![]
    } else {
        catalog_text(secs.drop_last()) + section_text(secs.last())
    }
}

/// The text of one section, as `catalog_text` lays it out.
pub open spec fn section_text(sec: Section) -> Seq<char> {
    sec.name@ + "\n"@ + items_text(sec.items.deep_view())
}

/// The item lines of a section.
pub open spec fn items_text(items: Seq<Seq<char>>) -> Seq<char>
    decreases items.len(),
{
    if items.len() == 0 {
        seq![]
    } else {
        items_text(items.drop_last()) + "  - "@ + items.last() + "\n"@
    }
}

/// The message of a load error, as it is shown to the user.
pub open spec fn load_error_text(e: LoadError) -> Seq<char> {
    match e {
        LoadError::Io { path, source } => "couldn't read catalog file '"@ + path@ + "': "@ + source@,
        LoadError::Parse(message) => "couldn't parse catalog YAML: "@ + message@,
    }
}

impl LoadError {
    /// The message of this error, as it is shown to the user.
    pub fn to_text(&self) -> (r: String)
        ensures
            r@ == load_error_text(*self),
    {
        match self {
            LoadError::Io { path, source } => {
                let head = concat3("couldn't read catalog file '", path.as_str(), "': ");
                concat2(head.as_str(), source.as_str())
            },
            LoadError::Parse(message) => concat2("couldn't parse catalog YAML: ", message.as_str()),
        }
    }
}

/// Whether one of the first `i` sections is named `name`.
fn name_before(secs: &Vec<Section>, i: usize, name: &str) -> (r: bool)
    requires
        i <= secs.len(),
    ensures
        r == section_names(secs@.subrange(0, i as int)).contains(name@),
{
    let ghost names = section_names(secs@.subrange(0, i as int));
    let mut j: usize = 0;
    while j < i
        invariant
            i <= secs.len(),
            j <= i,
            names == section_names(secs@.subrange(0, i as int)),
            forall|k: int| 0 <= k < j ==> names[k] != name@,
        decreases i - j,
    {
        if str_eq(secs[j].name.as_str(), name) {
            assert(names[j as int] == name@);
            return true;
        }
        j = j + 1;
    }
    false
}

/// Whether one of the first `i` items equals item `i`.
fn item_before(items: &Vec<String>, i: usize) -> (r: bool)
    requires
        i < items.len(),
    ensures
        r == items.deep_view().subrange(0, i as int).contains(items.deep_view()[i as int]),
{
    let ghost earlier = items.deep_view().subrange(0, i as int);
    let mut j: usize = 0;
    while j < i
        invariant
            i < items.len(),
            j <= i,
            earlier == items.deep_view().subrange(0, i as int),
            forall|k: int| 0 <= k < j ==> earlier[k] != items.deep_view()[i as int],
        decreases i - j,
    {
        if str_eq(items[j].as_str(), items[i].as_str()) {
            assert(earlier[j as int] == items.deep_view()[i as int]);
            return true;
        }
        j = j + 1;
    }
    false
}

/// The problems with the items of one section.
fn check_items(name: &String, items: &Vec<String>, issues: &mut Vec<String>)
    ensures
        final(issues).deep_view() == old(issues).deep_view() + item_issues(name@, items.deep_view()),
{
    let ghost start = issues.deep_view();
    let ghost all = items.deep_view();
    let n = items.len();
    let mut i: usize = 0;
    assert(item_issues(name@, all.subrange(0, 0)) =~= seq![]);
    assert(issues.deep_view() =~= start + seq![]);
    while i < n
        invariant
            n == items.len(),
            all == items.deep_view(),
            i <= n,
            issues.deep_view() == start + item_issues(name@, all.subrange(0, i as int)),
        decreases n - i,
    {
        let ghost pre = issues.deep_view();
        let item = &items[i];
        assert(all.subrange(0, i + 1).drop_last() =~= all.subrange(0, i as int));
        assert(all.subrange(0, i + 1).last() == all[i as int]);
        assert(item@ == all[i as int]);
        if str_is_blank(item.as_str()) {
            let msg = concat3("section '", name.as_str(), "' has an empty item name");
            issues.push(msg);
            assert(issues.deep_view() =~= pre.push(empty_item_msg(name@)));
        } else if item_before(items, i) {
            let head = concat3("duplicate item '", item.as_str(), "' in section '");
            let msg = concat3(head.as_str(), name.as_str(), "'");
            issues.push(msg);
            assert(issues.deep_view() =~= pre.push(duplicate_item_msg(all[i as int], name@)));
        }
        assert(issues.deep_view() =~= start + item_issues(name@, all.subrange(0, i + 1)));
        i = i + 1;
    }
    assert(all.subrange(0, n as int) =~= all);
}

impl Catalog {
    /// Returns a list of human-readable problems with the catalog.
    /// An empty list means the catalog is valid.
    pub fn validate(&self) -> (issues: Vec<String>)
        ensures
            issues.deep_view() == catalog_issues(self.sections@),
            issues@.len() == 0 <==> catalog_valid(self.sections@),
    {
        let ghost secs = self.sections@;
        let n = self.sections.len();
        let mut issues: Vec<String> = Vec::new();
        let mut i: usize = 0;
        assert(issues.deep_view() =~= catalog_issues(secs.subrange(0, 0)));
        while i < n
            invariant
                n == self.sections.len(),
                secs == self.sections@,
                i <= n,
                issues.deep_view() == catalog_issues(secs.subrange(0, i as int)),
            decreases n - i,
        {
            let ghost pre = issues.deep_view();
            let section = &self.sections[i];
            assert(secs.subrange(0, i + 1).drop_last() =~= secs.subrange(0, i as int));
            assert(secs.subrange(0, i + 1).last() == secs[i as int]);
            if str_is_blank(section.name.as_str()) {
                issues.push(String::from_str("a section has an empty name"));
            } else if name_before(&self.sections, i, section.name.as_str()) {
                issues.push(concat2("duplicate section: ", section.name.as_str()));
            }
            let ghost mid = issues.deep_view();
            if section.items.len() == 0 {
                issues.push(concat3("section '", section.name.as_str(), "' has no items"));
            }
            let ghost after = issues.deep_view();
            check_items(&section.name, &section.items, &mut issues);
            proof {
                let earlier = section_names(secs.subrange(0, i as int));
                let name = section.name@;
                let name_issue: Seq<Seq<char>> = if is_blank(name) {
                    seq![empty_name_msg()]
                } else if earlier.contains(name) {
                    seq![duplicate_section_msg(name)]
                } else {
                    seq![]
                };
                let items_issue: Seq<Seq<char>> = if section.items@.len() == 0 {
                    seq![no_items_msg(name)]
                } else {
                    seq![]
                };
                assert(mid =~= pre + name_issue);
                assert(after =~= pre + name_issue + items_issue);
                assert(issues.deep_view() =~= pre + section_issues(earlier, secs[i as int]));
                assert(issues.deep_view() =~= catalog_issues(secs.subrange(0, i + 1)));
            }
            i = i + 1;
        }
        assert(secs.subrange(0, n as int) =~= secs);
        proof {
            lemma_catalog_issues_empty_iff_valid(secs);
        }
        issues
    }

    /// Sorts the items of every section by their lower-case form, keeping the
    /// first order among items that compare equal; the sections keep their order.
    pub fn sort_items(&mut self)
        ensures
            items_sorted(old(self).sections@, final(self).sections@),
    {
        let ghost before = self.sections@;
        let n = self.sections.len();
        let mut i: usize = 0;
        while i < n
            invariant
                n == self.sections.len(),
                before.len() == n,
                i <= n,
                forall|k: int| i <= k < n ==> #[trigger] self.sections@[k] == before[k],
                forall|k: int|
                    0 <= k < i ==> {
                        &&& #[trigger] self.sections@[k].name@ == before[k].name@
                        &&& is_sorted_by_lowercase(
                            before[k].items.deep_view(),
                            self.sections@[k].items.deep_view(),
                        )
                    },
            decreases n - i,
        {
            let sorted = sort_by_lowercase(&self.sections[i].items);
            let ghost sorted_view = sorted.deep_view();
            let ghost pre = self.sections@;
            self.sections[i].items = sorted;
            assert(self.sections@[i as int].items.deep_view() == sorted_view);
            assert(self.sections@[i as int].name == pre[i as int].name);
            assert forall|k: int| 0 <= k < n && k != i implies #[trigger] self.sections@[k] == pre[k] by {}
            assert forall|k: int| 0 <= k < i + 1 implies {
                &&& #[trigger] self.sections@[k].name@ == before[k].name@
                &&& is_sorted_by_lowercase(before[k].items.deep_view(), self.sections@[k].items.deep_view())
            } by {
                if k < i {
                    assert(self.sections@[k] == pre[k]);
                    assert(pre[k].name@ == before[k].name@);
                }
            }
            i = i + 1;
        }
    }

    /// The catalog as text: each section's name on a line, then each item on a
    /// line of its own as `  - item`.
    pub fn to_text(&self) -> (r: String)
        ensures
            r@ == catalog_text(self.sections@),
    {
        let ghost secs = self.sections@;
        let mut r = String::new();
        let n = self.sections.len();
        let mut i: usize = 0;
        assert(r@ =~= catalog_text(secs.subrange(0, 0)));
        while i < n
            invariant
                n == self.sections.len(),
                secs == self.sections@,
                i <= n,
                r@ == catalog_text(secs.subrange(0, i as int)),
            decreases n - i,
        {
            let section = &self.sections[i];
            let ghost pre = r@;
            r.append(section.name.as_str());
            r.append("\n");
            let ghost all = section.items.deep_view();
            let m = section.items.len();
            let mut j: usize = 0;
            assert(items_text(all.subrange(0, 0)) =~= seq![]);
            assert(r@ =~= pre + section.name@ + "\n"@ + items_text(all.subrange(0, 0)));
            while j < m
                invariant
                    m == section.items.len(),
                    all == section.items.deep_view(),
                    j <= m,
                    r@ == pre + section.name@ + "\n"@ + items_text(all.subrange(0, j as int)),
                decreases m - j,
            {
                r.append("  - ");
                r.append(section.items[j].as_str());
                r.append("\n");
                assert(all.subrange(0, j + 1).drop_last() =~= all.subrange(0, j as int));
                assert(all[j as int] == section.items@[j as int]@);
                assert(r@ =~= pre + section.name@ + "\n"@ + items_text(all.subrange(0, j + 1)));
                j = j + 1;
            }
            assert(all.subrange(0, m as int) =~= all);
            assert(secs.subrange(0, i + 1).drop_last() =~= secs.subrange(0, i as int));
            assert(r@ =~= catalog_text(secs.subrange(0, i + 1)));
            i = i + 1;
        }
        assert(secs.subrange(0, n as int) =~= secs);
        r
    }
}

/// Validation reports nothing exactly for the valid catalogs.
pub proof fn lemma_catalog_issues_empty_iff_valid(secs: Seq<Section>)
    ensures
        catalog_issues(secs).len() == 0 <==> catalog_valid(secs),
    decreases secs.len(),
{
    if secs.len() > 0 {
        let init = secs.drop_last();
        let last = secs.last();
        lemma_catalog_issues_empty_iff_valid(init);
        lemma_item_issues_empty_iff_valid(last.name@, last.items.deep_view());
        let n = secs.len() - 1;
        assert(last == secs[n]);
        if catalog_valid(secs) {
            assert forall|i: int, j: int|
                0 <= i < j < init.len() implies #[trigger] init[i].name@ != #[trigger] init[j].name@ by {
                assert(init[i] == secs[i] && init[j] == secs[j]);
            }
            assert(catalog_valid(init));
            assert(!section_names(init).contains(last.name@)) by {
                if section_names(init).contains(last.name@) {
                    let k = choose|k: int| 0 <= k < init.len() && section_names(init)[k] == last.name@;
                    assert(secs[k].name@ != secs[n].name@);
                }
            }
            assert(items_valid(last.items.deep_view()));
            assert(last.items@.len() > 0);
            assert(!is_blank(last.name@));
        }
        if catalog_issues(secs).len() == 0 {
            assert(catalog_issues(init).len() == 0);
            assert(catalog_valid(init));
            assert(!is_blank(last.name@));
            assert(!section_names(init).contains(last.name@));
            assert(last.items@.len() > 0);
            assert(item_issues(last.name@, last.items.deep_view()).len() == 0);
            assert forall|i: int, j: int|
                0 <= i < j < secs.len() implies #[trigger] secs[i].name@ != #[trigger] secs[j].name@ by {
                if j == n {
                    assert(section_names(init)[i] == secs[i].name@);
                } else {
                    assert(init[i] == secs[i] && init[j] == secs[j]);
                }
            }
            assert forall|i: int| 0 <= i < secs.len() implies !is_blank(#[trigger] secs[i].name@) by {
                if i < n {
                    assert(init[i] == secs[i]);
                }
            }
            assert forall|i: int| 0 <= i < secs.len() implies #[trigger] secs[i].items@.len() > 0 by {
                if i < n {
                    assert(init[i] == secs[i]);
                }
            }
            assert forall|i: int| 0 <= i < secs.len() implies items_valid(
                #[trigger] secs[i].items.deep_view(),
            ) by {
                if i < n {
                    assert(init[i] == secs[i]);
                }
            }
        }
    }
}

/// The item checks report nothing exactly for valid items.
pub proof fn lemma_item_issues_empty_iff_valid(name: Seq<char>, items: Seq<Seq<char>>)
    ensures
        item_issues(name, items).len() == 0 <==> items_valid(items),
    decreases items.len(),
{
    if items.len() > 0 {
        let init = items.drop_last();
        let n = items.len() - 1;
        lemma_item_issues_empty_iff_valid(name, init);
        assert(items.last() == items[n]);
        if items_valid(items) {
            assert forall|i: int, j: int| 0 <= i < j < init.len() implies #[trigger] init[i] != #[trigger] init[j] by {
                assert(init[i] == items[i] && init[j] == items[j]);
            }
            assert(!init.contains(items[n])) by {
                if init.contains(items[n]) {
                    let k = choose|k: int| 0 <= k < init.len() && init[k] == items[n];
                    assert(items[k] != items[n]);
                }
            }
        }
        if item_issues(name, items).len() == 0 {
            assert(!is_blank(items[n]));
            assert(!init.contains(items[n]));
            assert forall|i: int, j: int| 0 <= i < j < items.len() implies #[trigger] items[i] != #[trigger] items[j] by {
                if j == n {
                    assert(init[i] == items[i]);
                } else {
                    assert(init[i] == items[i] && init[j] == items[j]);
                }
            }
            assert forall|i: int| 0 <= i < items.len() implies !is_blank(#[trigger] items[i]) by {
                if i < n {
                    assert(init[i] == items[i]);
                }
            }
        }
    }
}

/// Formatting a formatted catalog changes nothing: sorting the items of every
/// section twice gives what sorting them once gives.
pub proof fn lemma_format_twice(a: Seq<Section>, b: Seq<Section>, c: Seq<Section>)
    requires
        items_sorted(a, b),
        items_sorted(b, c),
    ensures
        c.len() == b.len(),
        forall|i: int|
            0 <= i < c.len() ==> #[trigger] c[i].name@ == b[i].name@ && c[i].items.deep_view()
                == b[i].items.deep_view(),
{
    assert forall|i: int| 0 <= i < c.len() implies #[trigger] c[i].name@ == b[i].name@
        && c[i].items.deep_view() == b[i].items.deep_view() by {
        assert(b[i].name@ == a[i].name@);
        assert(c[i].name@ == b[i].name@);
        lemma_sort_twice(a[i].items.deep_view(), b[i].items.deep_view(), c[i].items.deep_view());
    }
}

/// The "no items" message names its section and is unlike every other message:
/// it starts with "section '" (the others with 'a' or 'd'), and ends in 's' where
/// the empty-item message ends in 'e'.
proof fn lemma_no_items_msg_distinct(n: Seq<char>)
    ensures
        forall|m: Seq<char>| #[trigger] no_items_msg(m) == no_items_msg(n) ==> m == n,
        no_items_msg(n) != empty_name_msg(),
        forall|m: Seq<char>| no_items_msg(n) != #[trigger] duplicate_section_msg(m),
        forall|m: Seq<char>| no_items_msg(n) != #[trigger] empty_item_msg(m),
        forall|a: Seq<char>, m: Seq<char>| no_items_msg(n) != #[trigger] duplicate_item_msg(a, m),
{
    reveal_strlit("section '");
    reveal_strlit("' has no items");
    reveal_strlit("a section has an empty name");
    reveal_strlit("duplicate section: ");
    reveal_strlit("' has an empty item name");
    reveal_strlit("duplicate item '");
    reveal_strlit("' in section '");
    reveal_strlit("'");
    let x = no_items_msg(n);
    assert(x[0] == 's');
    assert(x[x.len() - 1] == 's');
    assert forall|m: Seq<char>| #[trigger] no_items_msg(m) == no_items_msg(n) implies m == n by {
        let y = no_items_msg(m);
        assert(m.len() == n.len());
        assert(m =~= y.subrange(9, 9 + m.len() as int));
        assert(n =~= x.subrange(9, 9 + n.len() as int));
    }
    assert(empty_name_msg()[0] == 'a');
    assert forall|m: Seq<char>| x != #[trigger] duplicate_section_msg(m) by {
        assert(duplicate_section_msg(m)[0] == 'd');
    }
    assert forall|m: Seq<char>| x != #[trigger] empty_item_msg(m) by {
        let y = empty_item_msg(m);
        assert(y[y.len() - 1] == 'e');
    }
    assert forall|a: Seq<char>, m: Seq<char>| x != #[trigger] duplicate_item_msg(a, m) by {
        assert(duplicate_item_msg(a, m)[0] == 'd');
    }
}

/// Every item problem is an empty-item or a duplicate-item message.
proof fn lemma_item_issue_kinds(name: Seq<char>, items: Seq<Seq<char>>)
    ensures
        forall|x: Seq<char>|
            #[trigger] item_issues(name, items).contains(x) ==> x == empty_item_msg(name) || exists|a: Seq<char>|
                x == #[trigger] duplicate_item_msg(a, name),
    decreases items.len(),
{
    if items.len() > 0 {
        let init = items.drop_last();
        lemma_item_issue_kinds(name, init);
        assert forall|x: Seq<char>|
            #[trigger] item_issues(name, items).contains(x) implies x == empty_item_msg(name) || exists|a: Seq<char>|
                x == #[trigger] duplicate_item_msg(a, name) by {
            let r = item_issues(name, items);
            let ri = item_issues(name, init);
            let i = choose|i: int| 0 <= i < r.len() && r[i] == x;
            if i < ri.len() {
                assert(ri[i] == x);
                assert(ri.contains(x));
            } else {
                assert(x == duplicate_item_msg(items.last(), name) ==> exists|a: Seq<char>|
                    x == #[trigger] duplicate_item_msg(a, name));
            }
        }
    }
}

/// Validation reports that a section named `n` has no items exactly when some
/// section named `n` has an empty item list: never for a section that holds items,
/// whatever else is wrong with it.
pub proof fn lemma_no_items_reported_exactly(secs: Seq<Section>, n: Seq<char>)
    ensures
        catalog_issues(secs).contains(no_items_msg(n)) <==> exists|i: int|
            0 <= i < secs.len() && (#[trigger] secs[i]).name@ == n && secs[i].items@.len() == 0,
    decreases secs.len(),
{
    if secs.len() > 0 {
        let init = secs.drop_last();
        let last = secs.last();
        let j = secs.len() - 1;
        lemma_no_items_reported_exactly(init, n);
        lemma_no_items_msg_distinct(n);
        lemma_item_issue_kinds(last.name@, last.items.deep_view());
        let msg = no_items_msg(n);
        let earlier = section_names(init);
        let name = last.name@;
        let name_issue: Seq<Seq<char>> = if is_blank(name) {
            seq![empty_name_msg()]
        } else if earlier.contains(name) {
            seq![duplicate_section_msg(name)]
        } else {
            seq![]
        };
        let items_issue: Seq<Seq<char>> = if last.items@.len() == 0 {
            seq![no_items_msg(name)]
        } else {
            seq![]
        };
        let its = item_issues(name, last.items.deep_view());
        let head = catalog_issues(init);
        let whole = catalog_issues(secs);
        assert(whole == head + (name_issue + items_issue + its));
        assert(!name_issue.contains(msg));
        assert(!its.contains(msg)) by {
            if its.contains(msg) {
                if msg != empty_item_msg(name) {
                    let a = choose|a: Seq<char>| msg == #[trigger] duplicate_item_msg(a, name);
                }
            }
        }
        assert(items_issue.contains(msg) <==> (last.items@.len() == 0 && name == n)) by {
            if items_issue.contains(msg) {
                assert(items_issue[0] == msg);
            }
            if last.items@.len() == 0 && name == n {
                assert(items_issue[0] == msg);
            }
        }
        assert(whole.contains(msg) <==> (head.contains(msg) || name_issue.contains(msg) || items_issue.contains(msg)
            || its.contains(msg))) by {
            let tail = name_issue + items_issue + its;
            if whole.contains(msg) {
                let i = choose|i: int| 0 <= i < whole.len() && whole[i] == msg;
                if i < head.len() {
                    assert(head[i] == msg);
                } else {
                    let t = i - head.len();
                    assert(tail[t] == msg);
                    if t < name_issue.len() {
                        assert(name_issue[t] == msg);
                    } else if t < name_issue.len() + items_issue.len() {
                        assert(items_issue[t - name_issue.len()] == msg);
                    } else {
                        assert(its[t - name_issue.len() - items_issue.len()] == msg);
                    }
                }
            }
            if head.contains(msg) {
                let i = choose|i: int| 0 <= i < head.len() && head[i] == msg;
                assert(whole[i] == msg);
            }
            if items_issue.contains(msg) {
                assert(whole[(head.len() + name_issue.len()) as int] == msg);
            }
        }
        if exists|i: int| 0 <= i < init.len() && (#[trigger] init[i]).name@ == n && init[i].items@.len() == 0 {
            let i = choose|i: int| 0 <= i < init.len() && (#[trigger] init[i]).name@ == n && init[i].items@.len() == 0;
            assert(secs[i] == init[i]);
        }
        if exists|i: int| 0 <= i < secs.len() && (#[trigger] secs[i]).name@ == n && secs[i].items@.len() == 0 {
            let i = choose|i: int| 0 <= i < secs.len() && (#[trigger] secs[i]).name@ == n && secs[i].items@.len() == 0;
            if i < j {
                assert(init[i] == secs[i]);
            } else {
                assert(secs[i] == last);
            }
        }
    }
}

} // verus!

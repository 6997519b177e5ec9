//! The decisions behind the UI commands: the shopping lists shown from the
//! cache, the refresh of shopping lists, the sync engine, and the sync
//! status.

use vstd::prelude::*;
use crate::api::{
    MealieShoppingList, MealieShoppingListItem, MealieShoppingListSummary, MealieRecipeSummary,
    tag_name_views,
};
use crate::db::{Statement, SqlView, sql_views, opt_text, upsert_recipe_statement, UPSERT_RECIPE_SQL};
use crate::text::{
    owned, seq_lt, str_lt, lemma_seq_lt_asym, lemma_seq_lt_total, lemma_seq_lt_trans, trim_spec, is_blank,
    decimal, usize_to_string, views, opt_view, join_spec, signed_decimal, i64_to_string, parse_i64,
    parse_i64_spec, lemma_i64_decimal_roundtrip,
};

verus! {

/// A shopping-list item as the UI shows it.
#[derive(Debug, Clone, PartialEq)]
pub struct ShoppingListItem {
    pub id: String,
    pub display: String,
    pub note: Option<String>,
    pub checked: bool,
    pub position: i64,
}

/// A shopping list as the UI shows it.
#[derive(Debug, Clone, PartialEq)]
pub struct ShoppingList {
    pub id: String,
    pub name: String,
    pub items: Vec<ShoppingListItem>,
}

/// The model of a shopping-list item.
pub struct ItemView {
    pub id: Seq<char>,
    pub display: Seq<char>,
    pub note: Option<Seq<char>>,
    pub checked: bool,
    pub position: i64,
}

impl View for ShoppingListItem {
    type V = ItemView;

    open spec fn view(&self) -> ItemView {
        ItemView {
            id: self.id@,
            display: self.display@,
            note: opt_view(self.note),
            checked: self.checked,
            position: self.position,
        }
    }
}

/// The models of a list of items.
pub open spec fn item_views(s: Seq<ShoppingListItem>) -> Seq<ItemView> {
    s.map_values(|x: ShoppingListItem| x@)
}

/// The order in which a list's items are shown: by position, then by
/// display text.
pub open spec fn item_before(a: ItemView, b: ItemView) -> bool {
    a.position < b.position || (a.position == b.position && seq_lt(a.display, b.display))
}

/// Whether the items are in display order.
pub open spec fn sorted_items(s: Seq<ItemView>) -> bool {
    forall|i: int, j: int| 0 <= i < j < s.len() ==> !item_before(#[trigger] s[j], #[trigger] s[i])
}

/// The predicate "has sort key `k`".
pub open spec fn has_key(k: (i64, Seq<char>)) -> spec_fn(ItemView) -> bool {
    |v: ItemView| v.position == k.0 && v.display == k.1
}

/// `r` is `s` stably sorted into display order: in order, and for every
/// sort key the items with that key are those of `s`, in their order in
/// `s`.
pub open spec fn stable_sort_of(r: Seq<ItemView>, s: Seq<ItemView>) -> bool {
    &&& r.len() == s.len()
    &&& sorted_items(r)
    &&& forall|k: (i64, Seq<char>)| #[trigger] r.filter(has_key(k)) == s.filter(has_key(k))
}

proof fn lemma_item_before_asym(a: ItemView, b: ItemView)
    ensures
        item_before(a, b) ==> !item_before(b, a),
        !item_before(a, a),
{
    lemma_seq_lt_asym(a.display, b.display);
}

/// Two items neither of which comes before the other share their sort key;
/// and if `c` comes before `a`, then any `b` comes after `c` or before `a`.
proof fn lemma_item_before_order(a: ItemView, b: ItemView, c: ItemView)
    ensures
        !item_before(a, b) && !item_before(b, a) ==> a.position == b.position && a.display
            == b.display,
        item_before(c, a) ==> item_before(c, b) || item_before(b, a),
{
    lemma_seq_lt_total(a.display, b.display);
    lemma_seq_lt_total(c.display, b.display);
    lemma_seq_lt_total(a.display, c.display);
    if item_before(c, a) && !item_before(c, b) && !item_before(b, a) {
        lemma_seq_lt_asym(b.display, c.display);
        lemma_seq_lt_asym(a.display, b.display);
        if c.position == a.position && c.position == b.position {
            if seq_lt(b.display, c.display) {
                lemma_seq_lt_trans(b.display, c.display, a.display);
            } else if seq_lt(a.display, b.display) {
                lemma_seq_lt_trans(c.display, a.display, b.display);
            }
        }
    }
}

/// Whether item `a` comes before item `b` in display order.
fn before(a: &ShoppingListItem, b: &ShoppingListItem) -> (r: bool)
    ensures
        r == item_before(a@, b@),
{
    if a.position < b.position {
        true
    } else if a.position == b.position {
        str_lt(a.display.as_str(), b.display.as_str())
    } else {
        false
    }
}

proof fn lemma_filter_none(s: Seq<ItemView>, p: spec_fn(ItemView) -> bool)
    requires
        forall|i: int| 0 <= i < s.len() ==> !p(#[trigger] s[i]),
    ensures
        s.filter(p) == Seq::<ItemView>::empty(),
{
    assert(s.all(|x: ItemView| !p(x)));
    s.lemma_all_neg_filter_empty(p);
}

/// Inserting `x` at `j`, after every item that does not come after it and
/// before the items that do, keeps the list a stable sort of its source
/// with `x` appended.
proof fn lemma_insert_sorted(r: Seq<ItemView>, s: Seq<ItemView>, x: ItemView, j: int)
    requires
        stable_sort_of(r, s),
        0 <= j <= r.len(),
        j > 0 ==> !item_before(x, r[j - 1]),
        forall|b: int| j <= b < r.len() ==> item_before(x, #[trigger] r[b]),
    ensures
        stable_sort_of(r.insert(j, x), s.push(x)),
{
    let r2 = r.insert(j, x);
    let a = r.take(j);
    let c = r.skip(j);
    assert(r2 =~= a + seq![x] + c);
    assert(r =~= a + c);
    assert forall|p: int, q: int| 0 <= p < q < r2.len() implies !item_before(
        #[trigger] r2[q],
        #[trigger] r2[p],
    ) by {
        if q < j {
            assert(r2[p] == r[p] && r2[q] == r[q]);
        } else if q == j {
            assert(r2[p] == r[p]);
            if p < j - 1 {
                assert(!item_before(r[j - 1], r[p]));
                lemma_item_before_order(r[p], r[j - 1], x);
            }
        } else if p == j {
            assert(r2[q] == r[q - 1]);
            lemma_item_before_asym(x, r[q - 1]);
        } else if p < j {
            assert(r2[p] == r[p] && r2[q] == r[q - 1]);
        } else {
            assert(r2[p] == r[p - 1] && r2[q] == r[q - 1]);
        }
    }
    assert forall|k: (i64, Seq<char>)| #[trigger] r2.filter(has_key(k)) == s.push(x).filter(
        has_key(k),
    ) by {
        let pk = has_key(k);
        Seq::filter_distributes_over_add(a + seq![x], c, pk);
        Seq::filter_distributes_over_add(a, seq![x], pk);
        Seq::filter_distributes_over_add(a, c, pk);
        s.lemma_filter_push(x, pk);
        assert(seq![x] == Seq::<ItemView>::empty().push(x));
        Seq::<ItemView>::empty().lemma_filter_push(x, pk);
        assert(Seq::<ItemView>::empty().filter(pk) == Seq::<ItemView>::empty()) by {
            lemma_filter_none(Seq::<ItemView>::empty(), pk);
        }
        assert(r.filter(pk) == s.filter(pk));
        if pk(x) {
            assert forall|i: int| 0 <= i < c.len() implies !pk(#[trigger] c[i]) by {
                assert(c[i] == r[j + i]);
                assert(item_before(x, r[j + i]));
                lemma_item_before_asym(x, x);
            }
            lemma_filter_none(c, pk);
            assert(a.filter(pk) + c.filter(pk) == a.filter(pk));
        } else {
            assert(a.filter(pk) + Seq::<ItemView>::empty() == a.filter(pk));
        }
    }
}

/// `items` stably sorted by position, then display text.
pub fn sort_items(items: Vec<ShoppingListItem>) -> (r: Vec<ShoppingListItem>)
    ensures
        stable_sort_of(item_views(r@), item_views(items@)),
{
    let ghost src = items@;
    let mut r: Vec<ShoppingListItem> = Vec::new();
    assert(item_views(r@) =~= item_views(src.take(0)));
    for x in it: items.into_iter()
        invariant
            it.seq() == src,
            stable_sort_of(item_views(r@), item_views(src.take(it.index()))),
    {
        let mut j = r.len();
        while j > 0 && before(&x, &r[j - 1])
            invariant
                j <= r@.len(),
                forall|b: int| j <= b < r@.len() ==> item_before(x@, #[trigger] r@[b]@),
            decreases j,
        {
            j = j - 1;
        }
        let ghost old_r = r@;
        r.insert(j, x);
        proof {
            let rv = item_views(old_r);
            assert forall|b: int| j <= b < rv.len() implies item_before(x@, #[trigger] rv[b]) by {
                assert(rv[b] == old_r[b]@);
            }
            if j > 0 {
                assert(rv[j - 1] == old_r[j - 1]@);
            }
            lemma_insert_sorted(rv, item_views(src.take(it.index())), x@, j as int);
            assert(item_views(r@) =~= rv.insert(j as int, x@));
            assert(src.take(it.index() + 1) == src.take(it.index()).push(x));
            assert(item_views(src.take(it.index() + 1)) =~= item_views(src.take(it.index())).push(
                x@,
            ));
        }
    }
    assert(src.take(src.len() as int) == src);
    r
}


/// The UI item for a Mealie item: items without an id are dropped, a
/// missing display text shows as empty.
pub open spec fn ui_item(m: MealieShoppingListItem) -> Option<ItemView> {
    match m.id {
        Some(id) => Some(
            ItemView {
                id: id@,
                display: match m.display {
                    Some(d) => d@,
                    None => Seq::empty(),
                },
                note: opt_view(m.note),
                checked: m.checked,
                position: m.position,
            },
        ),
        None => None,
    }
}

/// The spec closure of `ui_item`.
pub open spec fn ui_item_fn() -> spec_fn(MealieShoppingListItem) -> Option<ItemView> {
    |m: MealieShoppingListItem| ui_item(m)
}

/// The items that the cached list shows, before ordering; none when the
/// cached payload could not be read.
pub open spec fn cached_items(detail: Option<MealieShoppingList>) -> Seq<ItemView> {
    match detail {
        Some(d) => d.list_items@.filter_map(ui_item_fn()),
        None => Seq::empty(),
    }
}

/// The UI items of a list of Mealie items, in their order.
fn ui_items(list_items: Vec<MealieShoppingListItem>) -> (r: Vec<ShoppingListItem>)
    ensures
        item_views(r@) == list_items@.filter_map(ui_item_fn()),
{
    let ghost src = list_items@;
    let mut r: Vec<ShoppingListItem> = Vec::new();
    assert(item_views(r@) =~= src.take(0).filter_map(ui_item_fn()));
    for m in it: list_items.into_iter()
        invariant
            it.seq() == src,
            item_views(r@) == src.take(it.index()).filter_map(ui_item_fn()),
    {
        proof {
            src.lemma_filter_map_take_succ(ui_item_fn(), it.index());
        }
        let ghost old_r = r@;
        match m.id {
            Some(id) => {
                let display = match m.display {
                    Some(d) => d,
                    None => String::new(),
                };
                r.push(
                    ShoppingListItem {
                        id,
                        display,
                        note: m.note,
                        checked: m.checked,
                        position: m.position,
                    },
                );
                assert(item_views(r@) =~= item_views(old_r) + seq![r@.last()@]);
            },
            None => {},
        }
    }
    assert(src.take(src.len() as int) == src);
    r
}

/// Builds the UI list from a cached list whose payload was read into
/// `detail` (`None` when the payload could not be read, which shows the
/// list as empty rather than failing): items without an id are dropped,
/// and the rest are shown by position, then display text, keeping the
/// cached order among equals.
pub fn shopping_list_from_cache(id: &str, name: &str, detail: Option<MealieShoppingList>) -> (r:
    ShoppingList)
    ensures
        r.id@ == id@,
        r.name@ == name@,
        stable_sort_of(item_views(r.items@), cached_items(detail)),
{
    let items = match detail {
        Some(d) => ui_items(d.list_items),
        None => {
            let v: Vec<ShoppingListItem> = Vec::new();
            assert(item_views(v@) =~= Seq::<ItemView>::empty());
            v
        },
    };
    let mut list_id = String::new();
    list_id.append(id);
    let mut list_name = String::new();
    list_name.append(name);
    ShoppingList { id: list_id, name: list_name, items: sort_items(items) }
}


/// The name shown for a list: its own name unless that is missing or blank,
/// else `fallback` (the list's id).
pub open spec fn display_name_spec(name: Option<String>, fallback: Seq<char>) -> Seq<char> {
    match name {
        Some(n) => if trim_spec(n@).len() > 0 {
            n@
        } else {
            fallback
        },
        None => fallback,
    }
}

/// Law: a list is shown under its own name, exactly as the server gave
/// it, whenever that name is not blank (whatever spaces or other
/// characters it holds); only a missing or blank name gives way to the
/// fallback.
pub proof fn lemma_display_name_keeps_given_name(name: Option<String>, fallback: Seq<char>)
    ensures
        name is Some && trim_spec(name.unwrap()@).len() > 0 ==> display_name_spec(name, fallback)
            == name.unwrap()@,
        name is None ==> display_name_spec(name, fallback) == fallback,
        name is Some && trim_spec(name.unwrap()@).len() == 0 ==> display_name_spec(name, fallback)
            == fallback,
{
}

/// The name shown for a list: its own name unless that is missing or blank,
/// else `fallback`.
pub fn list_display_name(name: &Option<String>, fallback: &str) -> (r: String)
    ensures
        r@ == display_name_spec(*name, fallback@),
        name is Some && trim_spec(name.unwrap()@).len() > 0 ==> r@ == name.unwrap()@,
        name is None ==> r@ == fallback@,
        name is Some && trim_spec(name.unwrap()@).len() == 0 ==> r@ == fallback@,
{
    let mut r = String::new();
    match name {
        Some(n) => {
            if is_blank(n.as_str()) {
                r.append(fallback);
            } else {
                r.append(n.as_str());
            }
        },
        None => {
            r.append(fallback);
        },
    }
    r
}

/// The id of a checked item, when it has one.
pub open spec fn checked_id(m: MealieShoppingListItem) -> Option<Seq<char>> {
    if m.checked {
        opt_view(m.id)
    } else {
        None
    }
}

/// The spec closure of `checked_id`.
pub open spec fn checked_id_fn() -> spec_fn(MealieShoppingListItem) -> Option<Seq<char>> {
    |m: MealieShoppingListItem| checked_id(m)
}

/// The ids of the checked items of a list, in order (items without an id
/// are left out).
pub fn checked_item_ids(list: &MealieShoppingList) -> (r: Vec<String>)
    ensures
        views(r@) == list.list_items@.filter_map(checked_id_fn()),
        forall|k: int| 0 <= k < r@.len() ==> is_checked_item_id(list.list_items@, #[trigger] r@[k]@),
        forall|j: int|
            0 <= j < list.list_items@.len() && #[trigger] list.list_items@[j].checked
                && list.list_items@[j].id is Some ==> exists|k: int|
                0 <= k < r@.len() && Some(r@[k]@) == opt_view(list.list_items@[j].id),
{
    let items = &list.list_items;
    let mut r: Vec<String> = Vec::new();
    let mut i: usize = 0;
    assert(views(r@) =~= items@.take(0).filter_map(checked_id_fn()));
    while i < items.len()
        invariant
            i <= items@.len(),
            views(r@) == items@.take(i as int).filter_map(checked_id_fn()),
        decreases items@.len() - i,
    {
        proof {
            items@.lemma_filter_map_take_succ(checked_id_fn(), i as int);
        }
        let ghost old_r = r@;
        if items[i].checked {
            match &items[i].id {
                Some(id) => {
                    r.push(id.clone());
                    assert(views(r@) =~= views(old_r) + seq![id@]);
                },
                None => {},
            }
        }
        i = i + 1;
    }
    assert(items@.take(items@.len() as int) == items@);
    proof {
        assert forall|k: int| 0 <= k < r@.len() implies is_checked_item_id(items@, #[trigger] r@[k]@) by {
            assert(views(r@)[k] == r@[k]@);
            assert(views(r@).contains(r@[k]@));
            lemma_checked_ids_are_checked(items@, r@[k]@);
        }
        assert forall|j: int|
            0 <= j < items@.len() && #[trigger] items@[j].checked && items@[j].id is Some implies exists|
            k: int,
        | 0 <= k < r@.len() && Some(r@[k]@) == opt_view(items@[j].id) by {
            let id = opt_view(items@[j].id).unwrap();
            lemma_checked_ids_are_checked(items@, id);
            let k = choose|k: int| 0 <= k < views(r@).len() && views(r@)[k] == id;
            assert(views(r@)[k] == r@[k]@);
        }
    }
    r
}

/// Whether `id` is the id of a checked item of `items`.
pub open spec fn is_checked_item_id(items: Seq<MealieShoppingListItem>, id: Seq<char>) -> bool {
    exists|j: int| 0 <= j < items.len() && #[trigger] items[j].checked && opt_view(items[j].id) == Some(id)
}

/// Law: clearing the checked items of a list deletes exactly the checked
/// ones: an id is among those to delete if and only if it is the id of an
/// item whose checked flag is set, whatever the items' positions.
pub proof fn lemma_checked_ids_are_checked(items: Seq<MealieShoppingListItem>, id: Seq<char>)
    ensures
        items.filter_map(checked_id_fn()).contains(id) <==> is_checked_item_id(items, id),
    decreases items.len(),
{
    let f = checked_id_fn();
    if items.filter_map(f).contains(id) {
        items.lemma_filter_map_contains(f, id);
        let t = choose|t: MealieShoppingListItem| #[trigger] items.contains(t) && f(t) == Some(id);
        let j = choose|j: int| 0 <= j < items.len() && items[j] == t;
        assert(items[j].checked && opt_view(items[j].id) == Some(id));
    }
    if exists|j: int| 0 <= j < items.len() && #[trigger] items[j].checked && opt_view(items[j].id) == Some(id) {
        let j = choose|j: int| 0 <= j < items.len() && #[trigger] items[j].checked && opt_view(items[j].id) == Some(id);
        let rest = items.drop_last();
        if j == items.len() - 1 {
            assert(f(items.last()) == Some(id));
            assert(items.filter_map(f) == rest.filter_map(f) + seq![id]);
            assert(items.filter_map(f)[rest.filter_map(f).len() as int] == id);
        } else {
            assert(rest[j] == items[j]);
            lemma_checked_ids_are_checked(rest, id);
            let k = choose|k: int| 0 <= k < rest.filter_map(f).len() && rest.filter_map(f)[k] == id;
            match f(items.last()) {
                Some(s) => {
                    assert(items.filter_map(f) == rest.filter_map(f) + seq![s]);
                    assert(items.filter_map(f)[k] == id);
                },
                None => {
                    assert(items.filter_map(f) == rest.filter_map(f));
                },
            }
        }
    }
}

/// The ids of the lists that the server reported, in order; these are the
/// lists that the cache keeps.
pub fn reported_list_ids(summaries: &Vec<MealieShoppingListSummary>) -> (r: Vec<String>)
    ensures
        views(r@) == summaries@.filter_map(|s: MealieShoppingListSummary| opt_view(s.id)),
{
    let ghost f = |s: MealieShoppingListSummary| opt_view(s.id);
    let mut r: Vec<String> = Vec::new();
    let mut i: usize = 0;
    assert(views(r@) =~= summaries@.take(0).filter_map(f));
    while i < summaries.len()
        invariant
            i <= summaries@.len(),
            f == (|s: MealieShoppingListSummary| opt_view(s.id)),
            views(r@) == summaries@.take(i as int).filter_map(f),
        decreases summaries@.len() - i,
    {
        proof {
            summaries@.lemma_filter_map_take_succ(f, i as int);
        }
        let ghost old_r = r@;
        match &summaries[i].id {
            Some(id) => {
                r.push(id.clone());
                assert(views(r@) =~= views(old_r) + seq![id@]);
            },
            None => {},
        }
        i = i + 1;
    }
    assert(summaries@.take(summaries@.len() as int) == summaries@);
    r
}

/// A list to refresh: its id and the name to cache it under.
pub struct RefreshTarget {
    pub id: String,
    pub name: String,
}

/// The list that a summary asks to refresh: `None` when the summary has no
/// id (or an empty one); else its id and its name, or its id when the name
/// is missing or blank.
pub fn refresh_target(summary: &MealieShoppingListSummary) -> (r: Option<RefreshTarget>)
    ensures
        match r {
            Some(t) => summary.id matches Some(id) && id@.len() > 0 && t.id@ == id@ && t.name@
                == display_name_spec(summary.name, id@),
            None => match summary.id {
                Some(id) => id@.len() == 0,
                None => true,
            },
        },
{
    match &summary.id {
        Some(id) => {
            if crate::text::chars_of(id.as_str()).len() == 0 {
                None
            } else {
                let name = list_display_name(&summary.name, id.as_str());
                let mut list_id = String::new();
                list_id.append(id.as_str());
                Some(RefreshTarget { id: list_id, name })
            }
        },
        None => None,
    }
}

/// The outcome of one reported list during a refresh.
pub enum ListOutcome {
    /// The summary had no usable id.
    Invalid,
    /// The list could not be fetched.
    FetchFailed,
    /// The list was fetched and cached; it holds this many items.
    Cached(usize),
}

/// What the refresh of the shopping lists reports.
#[derive(Debug, Clone, PartialEq)]
pub struct ShoppingListsSyncReport {
    pub lists: usize,
    pub items: usize,
    pub errors: usize,
}

/// The running tally of a refresh of the shopping lists.
pub struct ListRefresh {
    lists: usize,
    visited: usize,
    cached: usize,
    items: usize,
    errors: usize,
}

impl ListRefresh {
    /// Every list visited so far was either cached or counted as an error.
    pub closed spec fn well_formed(&self) -> bool {
        &&& self.visited <= self.lists
        &&& self.cached + self.errors == self.visited
    }

    /// The number of reported lists.
    pub closed spec fn lists_spec(&self) -> nat {
        self.lists as nat
    }

    /// The number of lists visited so far.
    pub closed spec fn visited_spec(&self) -> nat {
        self.visited as nat
    }

    /// The number of lists cached so far.
    pub closed spec fn cached_spec(&self) -> nat {
        self.cached as nat
    }

    /// The number of items in the lists cached so far.
    pub closed spec fn items_spec(&self) -> nat {
        self.items as nat
    }

    /// The number of lists that failed so far.
    pub closed spec fn errors_spec(&self) -> nat {
        self.errors as nat
    }

    /// A refresh of `lists` reported lists, none visited yet.
    pub fn new(lists: usize) -> (r: Self)
        ensures
            r.well_formed(),
            r.lists_spec() == lists,
            r.visited_spec() == 0,
            r.cached_spec() == 0,
            r.items_spec() == 0,
            r.errors_spec() == 0,
    {
        ListRefresh { lists, visited: 0, cached: 0, items: 0, errors: 0 }
    }

    /// Whether every reported list has been visited.
    pub fn is_done(&self) -> (r: bool)
        ensures
            r == (self.visited_spec() == self.lists_spec()),
    {
        self.visited == self.lists
    }

    /// Records the outcome of the next reported list: an unusable id or a
    /// failed fetch counts as an error, a cached list adds its items.
    pub fn record(&mut self, outcome: ListOutcome)
        requires
            old(self).well_formed(),
            old(self).visited_spec() < old(self).lists_spec(),
            outcome matches ListOutcome::Cached(n) ==> old(self).items_spec() + n <= usize::MAX,
        ensures
            final(self).well_formed(),
            final(self).lists_spec() == old(self).lists_spec(),
            final(self).visited_spec() == old(self).visited_spec() + 1,
            match outcome {
                ListOutcome::Cached(n) => {
                    &&& final(self).cached_spec() == old(self).cached_spec() + 1
                    &&& final(self).items_spec() == old(self).items_spec() + n
                    &&& final(self).errors_spec() == old(self).errors_spec()
                },
                _ => {
                    &&& final(self).cached_spec() == old(self).cached_spec()
                    &&& final(self).items_spec() == old(self).items_spec()
                    &&& final(self).errors_spec() == old(self).errors_spec() + 1
                },
            },
    {
        match outcome {
            ListOutcome::Cached(n) => {
                self.cached = self.cached + 1;
                self.items = self.items + n;
            },
            _ => {
                self.errors = self.errors + 1;
            },
        }
        self.visited = self.visited + 1;
    }

    /// Whether adding `n` more items to the tally stays within `usize`.
    pub fn can_add_items(&self, n: usize) -> (r: bool)
        ensures
            r == (self.items_spec() + n <= usize::MAX),
    {
        n <= usize::MAX - self.items
    }

    /// The report: the number of reported lists, the items cached, and the
    /// lists that failed.
    pub fn report(&self) -> (r: ShoppingListsSyncReport)
        requires
            self.well_formed(),
        ensures
            r.lists == self.lists_spec(),
            r.items == self.items_spec(),
            r.errors == self.errors_spec(),
            r.errors <= r.lists,
    {
        ShoppingListsSyncReport { lists: self.lists, items: self.items, errors: self.errors }
    }
}

/// Law: once every reported list has been visited, each was either cached
/// or counted as an error, never both.
pub proof fn lemma_refresh_accounts_for_every_list(run: ListRefresh)
    requires
        run.well_formed(),
        run.visited_spec() == run.lists_spec(),
    ensures
        run.cached_spec() + run.errors_spec() == run.lists_spec(),
{
}


/// An optional `String` borrowed as an optional `&str`.
fn as_opt_str(o: &Option<String>) -> (r: Option<&str>)
    ensures
        crate::db::opt_str(r) == opt_view(*o),
{
    match o {
        Some(s) => Some(s.as_str()),
        None => None,
    }
}

/// The payload cached for a recipe until its full body is fetched.
pub const PLACEHOLDER_PAYLOAD: &'static str = "{}";

/// The upsert that the metadata pass runs for one recipe of the server's
/// collection: none for a recipe without an id or a name; else its
/// metadata, tags and categories, with the placeholder payload.
pub fn recipe_upsert_from_summary(summary: &MealieRecipeSummary, synced_at: i64) -> (r: Option<
    Statement,
>)
    ensures
        r is Some <==> (summary.id is Some && summary.name is Some),
        r matches Some(st) ==> {
            &&& st.sql@ == UPSERT_RECIPE_SQL@
            &&& sql_views(st.params@) == seq![
                SqlView::Text(summary.id.unwrap()@),
                SqlView::Text(summary.name.unwrap()@),
                opt_text(opt_view(summary.slug)),
                opt_text(opt_view(summary.description)),
                opt_text(opt_view(summary.image)),
                SqlView::Text(PLACEHOLDER_PAYLOAD@),
                SqlView::Text(join_spec(tag_name_views(summary.tags), ","@)),
                SqlView::Text(join_spec(tag_name_views(summary.categories), ","@)),
                SqlView::Integer(synced_at as int),
            ]
        },
{
    match (&summary.id, &summary.name) {
        (Some(id), Some(name)) => {
            let tags = summary.tag_names();
            let categories = summary.category_names();
            Some(
                upsert_recipe_statement(
                    id.as_str(),
                    name.as_str(),
                    as_opt_str(&summary.slug),
                    as_opt_str(&summary.description),
                    as_opt_str(&summary.image),
                    PLACEHOLDER_PAYLOAD,
                    &tags,
                    &categories,
                    synced_at,
                ),
            )
        },
        _ => None,
    }
}

/// Live progress emitted while a sync is in flight.
#[derive(Debug, Clone, PartialEq)]
pub struct SyncProgress {
    pub phase: String,
    pub processed: usize,
    pub total: usize,
    pub message: String,
}

/// A progress event.
fn progress(phase: &str, processed: usize, total: usize, message: String) -> (r: SyncProgress)
    ensures
        r.phase@ == phase@,
        r.processed == processed,
        r.total == total,
        r.message == message,
{
    SyncProgress { phase: owned(phase), processed, total, message }
}

/// `prefix {n} of {total}suffix`.
fn count_message(prefix: &str, n: usize, total: usize, suffix: &str) -> (r: String)
    ensures
        r@ == prefix@ + decimal(n as nat) + " of "@ + decimal(total as nat) + suffix@,
{
    let mut r = owned(prefix);
    r.append(usize_to_string(n).as_str());
    r.append(" of ");
    r.append(usize_to_string(total).as_str());
    r.append(suffix);
    r
}

/// The event announcing that the sync is connecting.
pub fn connect_progress() -> (r: SyncProgress)
    ensures
        r.phase@ == "connect"@,
        r.processed == 0,
        r.total == 0,
        r.message@ == "Connecting to server…"@,
{
    progress("connect", 0, 0, owned("Connecting to server…"))
}

/// Whether indexing the recipe at `index` of `total` reports progress: the
/// first, the last and every tenth do.
pub open spec fn reports_indexing(index: usize, total: usize) -> bool {
    index == 0 || index + 1 == total || index % 10 == 0
}

/// The progress of indexing the recipe at `index` of `total`, when that
/// recipe reports it.
pub fn indexing_progress(index: usize, total: usize) -> (r: Option<SyncProgress>)
    requires
        index < total,
    ensures
        r is Some <==> reports_indexing(index, total),
        r matches Some(p) ==> p.phase@ == "recipes"@ && p.processed == index + 1 && p.total == total
            && p.message@ == "Indexing recipes… "@ + decimal((index + 1) as nat) + " of "@ + decimal(
            total as nat,
        ),
{
    if index == 0 || index + 1 == total || index % 10 == 0 {
        let message = count_message("Indexing recipes… ", index + 1, total, "");
        proof {
            reveal_strlit("");
            let body = "Indexing recipes… "@ + decimal((index + 1) as nat) + " of "@ + decimal(
                total as nat,
            );
            assert(body + ""@ =~= body);
        }
        Some(progress("recipes", index + 1, total, message))
    } else {
        None
    }
}

/// The event closing the metadata pass.
pub fn recipes_ready_progress(total: usize) -> (r: SyncProgress)
    ensures
        r.phase@ == "recipes"@,
        r.processed == total,
        r.total == total,
        r.message@ == "Recipe list ready"@,
{
    progress("recipes", total, total, owned("Recipe list ready"))
}

/// The event closing the sync.
pub fn done_progress() -> (r: SyncProgress)
    ensures
        r.phase@ == "done"@,
        r.processed == 0,
        r.total == 0,
        r.message@ == "Sync complete"@,
{
    progress("done", 0, 0, owned("Sync complete"))
}

/// How many thumbnail downloads run at once.
pub const IMAGE_BATCH_SIZE: usize = 4;

/// The image resolution requested for thumbnails.
pub const THUMBNAIL_FILE: &'static str = "min-original.webp";

/// Whether a batch of `len` running downloads is awaited before more are
/// started.
pub fn batch_is_full(len: usize) -> (r: bool)
    ensures
        r == (len >= IMAGE_BATCH_SIZE),
{
    len >= IMAGE_BATCH_SIZE
}

/// The tally of the thumbnail pass.
pub struct ImageTally {
    total: usize,
    processed: usize,
    downloaded: usize,
}

impl ImageTally {
    /// No more thumbnails are downloaded than processed, nor processed
    /// than there were to fetch.
    pub closed spec fn well_formed(&self) -> bool {
        self.downloaded <= self.processed <= self.total
    }

    /// The number of thumbnails to fetch.
    pub closed spec fn total_spec(&self) -> nat {
        self.total as nat
    }

    /// The number of thumbnails processed so far.
    pub closed spec fn processed_spec(&self) -> nat {
        self.processed as nat
    }

    /// The number of thumbnails downloaded and cached so far.
    pub closed spec fn downloaded_spec(&self) -> nat {
        self.downloaded as nat
    }

    /// A pass over `total` thumbnails.
    pub fn new(total: usize) -> (r: Self)
        ensures
            r.well_formed(),
            r.total_spec() == total,
            r.processed_spec() == 0,
            r.downloaded_spec() == 0,
    {
        ImageTally { total, processed: 0, downloaded: 0 }
    }

    /// Records the next finished download (`cached` when its file was
    /// written and recorded) and gives its progress event.
    pub fn record(&mut self, cached: bool) -> (r: SyncProgress)
        requires
            old(self).well_formed(),
            old(self).processed_spec() < old(self).total_spec(),
        ensures
            final(self).well_formed(),
            final(self).total_spec() == old(self).total_spec(),
            final(self).processed_spec() == old(self).processed_spec() + 1,
            final(self).downloaded_spec() == old(self).downloaded_spec() + if cached {
                1int
            } else {
                0int
            },
            r.phase@ == "images"@,
            r.processed == final(self).processed_spec(),
            r.total == final(self).total_spec(),
            r.message@ == "Downloading thumbnail "@ + decimal(final(self).processed_spec()) + " of "@
                + decimal(final(self).total_spec()) + "…"@,
    {
        self.processed = self.processed + 1;
        if cached {
            self.downloaded = self.downloaded + 1;
        }
        progress(
            "images",
            self.processed,
            self.total,
            count_message("Downloading thumbnail ", self.processed, self.total, "…"),
        )
    }

    /// The event closing the pass, when there was anything to fetch.
    pub fn finish(&self) -> (r: Option<SyncProgress>)
        ensures
            r is Some <==> self.total_spec() > 0,
            r matches Some(p) ==> p.phase@ == "images"@ && p.processed == self.total_spec()
                && p.total == self.total_spec() && p.message@ == "Thumbnails ready"@,
    {
        if self.total > 0 {
            Some(progress("images", self.total, self.total, owned("Thumbnails ready")))
        } else {
            None
        }
    }
}

/// Whether an offline recipe's thumbnail is still to be downloaded: only
/// when no copy is cached.
pub fn needs_image(cached_path: &Option<String>) -> (r: bool)
    ensures
        r == (cached_path is None),
{
    cached_path.is_none()
}

/// The tally of the pass over the offline recipes.
pub struct DetailTally {
    total: usize,
    visited: usize,
    synced: usize,
    errors: usize,
    pending: bool,
}

impl DetailTally {
    /// Every finished recipe was either synced or counted as an error, and a
    /// recipe in flight is one of those not yet visited.
    pub closed spec fn well_formed(&self) -> bool {
        &&& self.synced + self.errors == self.visited
        &&& self.visited <= self.total
        &&& self.pending ==> self.visited < self.total
    }

    /// The number of offline recipes.
    pub closed spec fn total_spec(&self) -> nat {
        self.total as nat
    }

    /// The number of recipes finished so far.
    pub closed spec fn visited_spec(&self) -> nat {
        self.visited as nat
    }

    /// The number of recipes whose payload was synced so far.
    pub closed spec fn synced_spec(&self) -> nat {
        self.synced as nat
    }

    /// The number of recipes that failed so far.
    pub closed spec fn errors_spec(&self) -> nat {
        self.errors as nat
    }

    /// Whether a recipe is in flight.
    pub closed spec fn pending_spec(&self) -> bool {
        self.pending
    }

    /// A pass over `total` offline recipes.
    pub fn new(total: usize) -> (r: Self)
        ensures
            r.well_formed(),
            r.total_spec() == total,
            r.visited_spec() == 0,
            r.synced_spec() == 0,
            r.errors_spec() == 0,
            !r.pending_spec(),
    {
        DetailTally { total, visited: 0, synced: 0, errors: 0, pending: false }
    }

    /// Starts the next recipe. One without a slug cannot be fetched and
    /// counts as an error at once; otherwise the recipe is in flight and its
    /// progress event is given.
    pub fn start(&mut self, has_slug: bool) -> (r: Option<SyncProgress>)
        requires
            old(self).well_formed(),
            !old(self).pending_spec(),
            old(self).visited_spec() < old(self).total_spec(),
        ensures
            final(self).well_formed(),
            final(self).total_spec() == old(self).total_spec(),
            final(self).synced_spec() == old(self).synced_spec(),
            !has_slug ==> {
                &&& r is None
                &&& !final(self).pending_spec()
                &&& final(self).visited_spec() == old(self).visited_spec() + 1
                &&& final(self).errors_spec() == old(self).errors_spec() + 1
            },
            has_slug ==> {
                &&& final(self).pending_spec()
                &&& final(self).visited_spec() == old(self).visited_spec()
                &&& final(self).errors_spec() == old(self).errors_spec()
                &&& r matches Some(p) && p.phase@ == "details"@ && p.processed
                    == old(self).visited_spec() && p.total == old(self).total_spec() && p.message@
                    == "Pulling offline recipe "@ + decimal(old(self).visited_spec()) + " of "@
                    + decimal(old(self).total_spec()) + "…"@
            },
    {
        if !has_slug {
            self.errors = self.errors + 1;
            self.visited = self.visited + 1;
            None
        } else {
            self.pending = true;
            Some(
                progress(
                    "details",
                    self.visited,
                    self.total,
                    count_message("Pulling offline recipe ", self.visited, self.total, "…"),
                ),
            )
        }
    }

    /// Finishes the recipe in flight: `saved` when its payload was fetched
    /// and stored, else it counts as an error.
    pub fn finish(&mut self, saved: bool)
        requires
            old(self).well_formed(),
            old(self).pending_spec(),
        ensures
            final(self).well_formed(),
            !final(self).pending_spec(),
            final(self).total_spec() == old(self).total_spec(),
            final(self).visited_spec() == old(self).visited_spec() + 1,
            saved ==> final(self).synced_spec() == old(self).synced_spec() + 1
                && final(self).errors_spec() == old(self).errors_spec(),
            !saved ==> final(self).synced_spec() == old(self).synced_spec()
                && final(self).errors_spec() == old(self).errors_spec() + 1,
    {
        if saved {
            self.synced = self.synced + 1;
        } else {
            self.errors = self.errors + 1;
        }
        self.visited = self.visited + 1;
        self.pending = false;
    }

    /// Whether every offline recipe has been finished.
    pub fn is_done(&self) -> (r: bool)
        ensures
            r == (self.visited_spec() == self.total_spec()),
    {
        self.visited == self.total
    }
}

/// The smallest index from `from` on of a recipe with a slug, or the
/// number of recipes when there is none.
pub open spec fn next_with_slug(slugs: Seq<bool>, from: nat) -> nat
    decreases slugs.len() - from,
{
    if from >= slugs.len() {
        slugs.len()
    } else if slugs[from as int] {
        from
    } else {
        next_with_slug(slugs, from + 1)
    }
}

proof fn lemma_next_with_slug(slugs: Seq<bool>, from: nat)
    requires
        from <= slugs.len(),
    ensures
        from <= next_with_slug(slugs, from) <= slugs.len(),
        next_with_slug(slugs, from) < slugs.len() ==> slugs[next_with_slug(slugs, from) as int],
        forall|i: int| from <= i < next_with_slug(slugs, from) ==> !slugs[i],
    decreases slugs.len() - from,
{
    if from < slugs.len() && !slugs[from as int] {
        lemma_next_with_slug(slugs, from + 1);
    }
}

/// Whether `p` is the event announcing offline recipe `index` of `total`.
pub open spec fn is_detail_progress(p: SyncProgress, index: nat, total: nat) -> bool {
    &&& p.phase@ == "details"@
    &&& p.processed == index
    &&& p.total == total
    &&& p.message@ == "Pulling offline recipe "@ + decimal(index) + " of "@ + decimal(total) + "…"@
}

/// Where the pass over the offline recipes stands.
#[derive(Debug, Clone, Copy, PartialEq, Eq)]
pub enum DetailStage {
    /// Waiting for the detail of the recipe in flight.
    Fetching,
    /// Waiting for the cached image path of the recipe in flight.
    ReadingImagePath,
    /// Waiting for the thumbnail of the recipe in flight to be downloaded
    /// and written.
    Downloading,
    /// Waiting for the payload of the recipe in flight to be stored.
    Saving,
    /// Every offline recipe has been finished.
    Done,
}

/// What the outside work of the pass over the offline recipes reported.
#[derive(Debug, Clone, Copy, PartialEq, Eq)]
pub enum DetailEvent {
    /// The detail of the recipe in flight was fetched (`true`) or not.
    Fetched(bool),
    /// The cached image path of the recipe in flight was read: whether one
    /// is cached.
    ImagePathRead(bool),
    /// The thumbnail download of the recipe in flight is over, whatever
    /// came of it.
    ImageAttempted,
    /// The payload of the recipe in flight was stored (`true`) or not.
    Saved(bool),
}

/// What the application does next in the pass over the offline recipes,
/// on the recipe at `index` of the list it was made with.
#[derive(Debug, Clone, PartialEq)]
pub enum DetailAction {
    /// Emit `progress`, then fetch the recipe's detail.
    Fetch { index: usize, progress: SyncProgress },
    /// Read the recipe's cached image path.
    ReadImagePath { index: usize },
    /// Download and write the recipe's thumbnail.
    DownloadImage { index: usize },
    /// Store the fetched payload, with the thumbnail's path if one was
    /// written.
    SavePayload { index: usize },
    /// The pass is over.
    Finish,
}

/// The pass over the offline recipes as a state machine: the application
/// performs each action and reports the outcome as an event. A recipe
/// without a slug counts as an error at once; a failed fetch or store
/// counts as an error; the thumbnail is downloaded only when no copy is
/// cached.
pub struct DetailPass {
    tally: DetailTally,
    has_slug: Vec<bool>,
    stage: DetailStage,
}

impl DetailPass {
    /// Whether the recipes of the pass have slugs, in order.
    pub closed spec fn slugs_spec(&self) -> Seq<bool> {
        self.has_slug@
    }

    /// The tally of the pass.
    pub closed spec fn tally_spec(&self) -> DetailTally {
        self.tally
    }

    /// The tally of the pass.
    pub fn tally(&self) -> (r: &DetailTally)
        ensures
            *r == self.tally_spec(),
    {
        &self.tally
    }

    /// Where the pass stands.
    pub closed spec fn stage_spec(&self) -> DetailStage {
        self.stage
    }

    /// The tally agrees with the list of recipes, and a recipe is in
    /// flight exactly when the pass waits for an outcome.
    pub closed spec fn well_formed(&self) -> bool {
        &&& self.tally.well_formed()
        &&& self.tally.total_spec() == self.has_slug@.len()
        &&& (self.stage == DetailStage::Done) == !self.tally.pending_spec()
        &&& self.stage == DetailStage::Done ==> self.tally.visited_spec() == self.tally.total_spec()
        &&& self.tally.pending_spec() ==> self.has_slug@[self.tally.visited_spec() as int]
    }

    /// Whether `event` is an outcome of the action the pass waits for.
    pub open spec fn expects_spec(&self, event: DetailEvent) -> bool {
        match self.stage_spec() {
            DetailStage::Fetching => event is Fetched,
            DetailStage::ReadingImagePath => event is ImagePathRead,
            DetailStage::Downloading => event is ImageAttempted,
            DetailStage::Saving => event is Saved,
            DetailStage::Done => false,
        }
    }

    /// Whether `event` is an outcome of the action the pass waits for.
    pub fn expects(&self, event: DetailEvent) -> (r: bool)
        ensures
            r == self.expects_spec(event),
    {
        match self.stage {
            DetailStage::Fetching => matches!(event, DetailEvent::Fetched(_)),
            DetailStage::ReadingImagePath => matches!(event, DetailEvent::ImagePathRead(_)),
            DetailStage::Downloading => matches!(event, DetailEvent::ImageAttempted),
            DetailStage::Saving => matches!(event, DetailEvent::Saved(_)),
            DetailStage::Done => false,
        }
    }

    /// Counts the recipes without a slug from the current one on as errors,
    /// and starts the next one with a slug, or ends the pass.
    fn advance(&mut self) -> (r: DetailAction)
        requires
            old(self).tally_spec().well_formed(),
            old(self).tally_spec().total_spec() == old(self).has_slug@.len(),
            !old(self).tally_spec().pending_spec(),
        ensures
            final(self).well_formed(),
            final(self).slugs_spec() == old(self).slugs_spec(),
            final(self).tally_spec().total_spec() == old(self).tally_spec().total_spec(),
            final(self).tally_spec().synced_spec() == old(self).tally_spec().synced_spec(),
            ({
                let k = next_with_slug(old(self).slugs_spec(), old(self).tally_spec().visited_spec());
                &&& final(self).tally_spec().visited_spec() == k
                &&& final(self).tally_spec().errors_spec() == old(self).tally_spec().errors_spec() + (k - old(
                    self,
                ).tally_spec().visited_spec())
                &&& k < old(self).tally_spec().total_spec() ==> final(self).stage_spec() == DetailStage::Fetching
                    && (r matches DetailAction::Fetch { index, progress } && index == k
                    && is_detail_progress(progress, k, old(self).tally_spec().total_spec()))
                &&& k == old(self).tally_spec().total_spec() ==> final(self).stage_spec() == DetailStage::Done
                    && r == DetailAction::Finish
            }),
    {
        let ghost v0 = self.tally.visited_spec();
        let ghost e0 = self.tally.errors_spec();
        proof {
            lemma_next_with_slug(self.has_slug@, v0);
        }
        loop
            invariant
                self.tally.well_formed(),
                self.tally.total_spec() == self.has_slug@.len(),
                self.has_slug@ == old(self).has_slug@,
                v0 == old(self).tally_spec().visited_spec(),
                e0 == old(self).tally_spec().errors_spec(),
                !self.tally.pending_spec(),
                self.tally.total_spec() == old(self).tally_spec().total_spec(),
                self.tally.synced_spec() == old(self).tally_spec().synced_spec(),
                v0 <= self.tally.visited_spec() <= next_with_slug(self.has_slug@, v0),
                next_with_slug(self.has_slug@, v0) == next_with_slug(self.has_slug@, self.tally.visited_spec()),
                self.tally.errors_spec() == e0 + (self.tally.visited_spec() - v0),
            decreases self.tally.total_spec() - self.tally.visited_spec(),
        {
            if self.tally.is_done() {
                assert(next_with_slug(self.has_slug@, self.tally.visited_spec()) == self.tally.visited_spec());
                self.stage = DetailStage::Done;
                return DetailAction::Finish;
            }
            let index = self.tally.visited;
            let slug = self.has_slug[index];
            let ghost vi = self.tally.visited_spec();
            proof {
                lemma_next_with_slug(self.has_slug@, vi + 1);
            }
            let started = self.tally.start(slug);
            match started {
                Some(progress) => {
                    assert(next_with_slug(self.has_slug@, vi) == vi);
                    self.stage = DetailStage::Fetching;
                    return DetailAction::Fetch { index, progress };
                },
                None => {
                    assert(next_with_slug(self.has_slug@, vi) == next_with_slug(self.has_slug@, vi + 1));
                },
            }
        }
    }

    /// The pass over recipes whose slugs are present as `has_slug` says,
    /// and its first action.
    pub fn new(has_slug: Vec<bool>) -> (r: (Self, DetailAction))
        ensures
            r.0.well_formed(),
            r.0.slugs_spec() == has_slug@,
            r.0.tally_spec().total_spec() == has_slug@.len(),
            r.0.tally_spec().synced_spec() == 0,
            r.1 matches DetailAction::Fetch { index, .. } ==> index < has_slug@.len() && has_slug@[index as int],
            ({
                let k = next_with_slug(has_slug@, 0);
                &&& r.0.tally_spec().visited_spec() == k
                &&& r.0.tally_spec().errors_spec() == k
                &&& k < has_slug@.len() ==> r.0.stage_spec() == DetailStage::Fetching && (r.1 matches DetailAction::Fetch { index, progress } && index == k
                    && is_detail_progress(progress, k, has_slug@.len() as nat))
                &&& k == has_slug@.len() ==> r.0.stage_spec() == DetailStage::Done && r.1 == DetailAction::Finish
            }),
    {
        let tally = DetailTally::new(has_slug.len());
        let mut pass = DetailPass { tally, has_slug, stage: DetailStage::Done };
        let action = pass.advance();
        (pass, action)
    }

    /// The next action, given the outcome of the last one.
    pub fn step(&mut self, event: DetailEvent) -> (r: DetailAction)
        requires
            old(self).well_formed(),
            old(self).expects_spec(event),
        ensures
            final(self).well_formed(),
            final(self).slugs_spec() == old(self).slugs_spec(),
            final(self).tally_spec().total_spec() == old(self).tally_spec().total_spec(),
            r matches DetailAction::Fetch { index, .. } ==> index < final(self).slugs_spec().len()
                && final(self).slugs_spec()[index as int],
            ({
                let v = old(self).tally_spec().visited_spec();
                let n = old(self).tally_spec().total_spec();
                let k = next_with_slug(old(self).slugs_spec(), v + 1);
                match event {
                    DetailEvent::Fetched(true) => final(self).stage_spec() == DetailStage::ReadingImagePath
                        && r == DetailAction::ReadImagePath { index: v as usize } && final(self).tally_spec()
                        == old(self).tally_spec(),
                    DetailEvent::ImagePathRead(false) => final(self).stage_spec() == DetailStage::Downloading
                        && r == DetailAction::DownloadImage { index: v as usize } && final(self).tally_spec()
                        == old(self).tally_spec(),
                    DetailEvent::ImagePathRead(true) | DetailEvent::ImageAttempted => final(self).stage_spec()
                        == DetailStage::Saving && r == DetailAction::SavePayload { index: v as usize }
                        && final(self).tally_spec() == old(self).tally_spec(),
                    DetailEvent::Fetched(false) | DetailEvent::Saved(_) => {
                        let saved = event == DetailEvent::Saved(true);
                        &&& final(self).tally_spec().visited_spec() == k
                        &&& final(self).tally_spec().synced_spec() == old(self).tally_spec().synced_spec() + (if saved {
                            1nat
                        } else {
                            0nat
                        })
                        &&& final(self).tally_spec().errors_spec() == old(self).tally_spec().errors_spec() + (if saved {
                            0nat
                        } else {
                            1nat
                        }) + (k - (v + 1))
                        &&& k < n ==> final(self).stage_spec() == DetailStage::Fetching
                            && (r matches DetailAction::Fetch { index, progress } && index == k
                            && is_detail_progress(progress, k, n))
                        &&& k == n ==> final(self).stage_spec() == DetailStage::Done && r == DetailAction::Finish
                    },
                }
            }),
    {
        let index = self.tally.visited;
        match event {
            DetailEvent::Fetched(true) => {
                self.stage = DetailStage::ReadingImagePath;
                DetailAction::ReadImagePath { index }
            },
            DetailEvent::ImagePathRead(false) => {
                self.stage = DetailStage::Downloading;
                DetailAction::DownloadImage { index }
            },
            DetailEvent::ImagePathRead(true) | DetailEvent::ImageAttempted => {
                self.stage = DetailStage::Saving;
                DetailAction::SavePayload { index }
            },
            DetailEvent::Fetched(false) => {
                self.tally.finish(false);
                self.advance()
            },
            DetailEvent::Saved(saved) => {
                self.tally.finish(saved);
                self.advance()
            },
        }
    }
}

/// Law: when the pass over the offline recipes is over, every recipe was
/// either synced or counted as an error, never both.
pub proof fn lemma_detail_pass_accounts_for_every_recipe(pass: DetailPass)
    requires
        pass.well_formed(),
        pass.stage_spec() == DetailStage::Done,
    ensures
        pass.tally_spec().synced_spec() + pass.tally_spec().errors_spec() == pass.slugs_spec().len(),
{
}

/// What a completed sync reports.
#[derive(Debug, Clone, PartialEq)]
pub struct SyncReport {
    pub total_recipes: usize,
    pub details_synced: usize,
    pub images_downloaded: usize,
    pub errors: usize,
    pub finished_at: i64,
}

/// The report of a sync: the recipes the server listed, the offline
/// payloads synced, the thumbnails cached, and the offline recipes that
/// failed.
pub fn sync_report(total_recipes: usize, images: &ImageTally, details: &DetailTally, finished_at: i64) -> (r:
    SyncReport)
    requires
        images.well_formed(),
        details.well_formed(),
    ensures
        r.total_recipes == total_recipes,
        r.details_synced == details.synced_spec(),
        r.images_downloaded == images.downloaded_spec(),
        r.errors == details.errors_spec(),
        r.finished_at == finished_at,
        r.images_downloaded <= images.total_spec(),
        r.details_synced + r.errors <= details.total_spec(),
{
    SyncReport {
        total_recipes,
        details_synced: details.synced,
        images_downloaded: images.downloaded,
        errors: details.errors,
        finished_at,
    }
}

/// Law: once every offline recipe has been finished, each was either
/// synced or counted as an error, never both; and no more thumbnails are
/// cached than there were to fetch.
pub proof fn lemma_sync_accounts_for_every_recipe(images: ImageTally, details: DetailTally)
    requires
        images.well_formed(),
        details.well_formed(),
        details.visited_spec() == details.total_spec(),
    ensures
        details.synced_spec() + details.errors_spec() == details.total_spec(),
        images.downloaded_spec() <= images.processed_spec() <= images.total_spec(),
{
}

/// The `sync_meta` key of the time of the last sync.
pub const LAST_SYNC_AT_KEY: &'static str = "last_sync_at";

/// The `sync_meta` key of the number of recipes of the last sync.
pub const LAST_SYNC_COUNT_KEY: &'static str = "last_sync_count";

/// The `sync_meta` key of the server of the last sync.
pub const SERVER_URL_KEY: &'static str = "server_url";

/// The `sync_meta` values a completed sync records: when it ran, how many
/// recipes the server listed, and which server it was.
pub fn sync_meta_entries(timestamp: i64, total_recipes: usize, base_url: &str) -> (r: Vec<
    (String, String),
>)
    ensures
        crate::api::pair_views(r@) == seq![
            (LAST_SYNC_AT_KEY@, signed_decimal(timestamp as int)),
            (LAST_SYNC_COUNT_KEY@, decimal(total_recipes as nat)),
            (SERVER_URL_KEY@, base_url@),
        ],
{
    let mut r: Vec<(String, String)> = Vec::new();
    r.push((owned(LAST_SYNC_AT_KEY), i64_to_string(timestamp)));
    r.push((owned(LAST_SYNC_COUNT_KEY), usize_to_string(total_recipes)));
    r.push((owned(SERVER_URL_KEY), owned(base_url)));
    assert(crate::api::pair_views(r@) =~= seq![
        (LAST_SYNC_AT_KEY@, signed_decimal(timestamp as int)),
        (LAST_SYNC_COUNT_KEY@, decimal(total_recipes as nat)),
        (SERVER_URL_KEY@, base_url@),
    ]);
    r
}

/// When the last sync ran, how many recipes it saw, and which server it
/// used; each absent when not recorded (or, for the numbers, not a
/// number).
#[derive(Debug, Clone, PartialEq)]
pub struct SyncStatus {
    pub last_sync_at: Option<i64>,
    pub last_sync_count: Option<i64>,
    pub server_url: Option<String>,
}

/// A recorded number, when the value is one.
pub open spec fn recorded_number(v: Option<Seq<char>>) -> Option<i64> {
    match v {
        Some(s) => parse_i64_spec(s),
        None => None,
    }
}

/// A recorded value read as a number.
fn number_of(v: &Option<String>) -> (r: Option<i64>)
    ensures
        r == recorded_number(opt_view(*v)),
{
    match v {
        Some(s) => parse_i64(s.as_str()),
        None => None,
    }
}

/// The sync status from the recorded `sync_meta` values.
pub fn sync_status_from_meta(
    last_sync_at: Option<String>,
    last_sync_count: Option<String>,
    server_url: Option<String>,
) -> (r: SyncStatus)
    ensures
        r.last_sync_at == recorded_number(opt_view(last_sync_at)),
        r.last_sync_count == recorded_number(opt_view(last_sync_count)),
        opt_view(r.server_url) == opt_view(server_url),
{
    let at = number_of(&last_sync_at);
    let count = number_of(&last_sync_count);
    SyncStatus { last_sync_at: at, last_sync_count: count, server_url }
}

/// Law: the status read back from what a sync records gives the time of
/// that sync, its recipe count and its server.
pub proof fn lemma_sync_status_roundtrip(timestamp: i64, total_recipes: usize, base_url: Seq<char>)
    requires
        total_recipes <= i64::MAX,
    ensures
        recorded_number(Some(signed_decimal(timestamp as int))) == Some(timestamp),
        recorded_number(Some(decimal(total_recipes as nat))) == Some(total_recipes as i64),
{
    lemma_i64_decimal_roundtrip(timestamp);
    lemma_i64_decimal_roundtrip(total_recipes as i64);
    assert(signed_decimal(total_recipes as i64 as int) == decimal(total_recipes as nat));
}


/// The extension of a file name: what follows its last `.`, if it has one.
pub open spec fn last_extension(s: Seq<char>) -> Option<Seq<char>>
    decreases s.len(),
{
    if s.len() == 0 {
        None
    } else if s.last() == '.' {
        Some(Seq::empty())
    } else {
        match last_extension(s.drop_last()) {
            Some(e) => Some(e.push(s.last())),
            None => None,
        }
    }
}

/// Law: the extension of a file name is what follows its last dot: the
/// name is some text, a dot, and the extension, which holds no dot; a
/// name without a dot has no extension.
pub proof fn lemma_last_extension(s: Seq<char>)
    ensures
        last_extension(s) is None ==> !s.contains('.'),
        last_extension(s) matches Some(e) ==> {
            &&& !e.contains('.')
            &&& e.len() < s.len()
            &&& s[s.len() - e.len() - 1] == '.'
            &&& s.skip(s.len() - e.len()) == e
        },
    decreases s.len(),
{
    if s.len() > 0 {
        let d = s.drop_last();
        lemma_last_extension(d);
        if s.last() == '.' {
            assert(s.skip(s.len() as int) =~= Seq::<char>::empty());
        } else {
            match last_extension(d) {
                Some(e) => {
                    let e2 = e.push(s.last());
                    assert forall|i: int| 0 <= i < e2.len() implies e2[i] != '.' by {
                        if i < e.len() {
                            assert(e2[i] == e[i]);
                        }
                    }
                    assert(s[s.len() - e2.len() - 1] == d[d.len() - e.len() - 1]);
                    assert(s.skip(s.len() - e2.len()) =~= d.skip(d.len() - e.len()).push(s.last()));
                },
                None => {
                    assert forall|i: int| 0 <= i < s.len() implies s[i] != '.' by {
                        if i < d.len() {
                            assert(s[i] == d[i]);
                        }
                    }
                },
            }
        }
    }
}

/// Law: the first and the last recipe of the metadata pass are always
/// reported, and no ten recipes in a row go by without a report.
pub proof fn lemma_indexing_reports_regularly(total: usize, i: usize)
    requires
        i + 10 <= total,
    ensures
        reports_indexing(0, total),
        reports_indexing((total - 1) as usize, total),
        exists|j: usize| i <= j < i + 10 && #[trigger] reports_indexing(j, total),
{
    let m: int = i as int % 10;
    let j: usize = if m == 0 {
        i
    } else {
        (i + 10 - m) as usize
    };
    assert(j % 10 == 0);
    assert(reports_indexing(j, total));
}

/// The extension a cached image gets: that of the downloaded file name,
/// or `webp` when it has none.
pub open spec fn image_extension(file_name: Seq<char>) -> Seq<char> {
    match last_extension(file_name) {
        Some(e) => if e.len() > 0 {
            e
        } else {
            "webp"@
        },
        None => "webp"@,
    }
}

/// The name of the cached image file of a recipe: `{recipe_id}.{ext}`.
pub fn image_file_name(recipe_id: &str, file_name: &str) -> (r: String)
    ensures
        r@ == recipe_id@ + "."@ + image_extension(file_name@),
{
    let cs = crate::text::chars_of(file_name);
    let n = cs.len();
    let mut k = n;
    assert(cs@.subrange(k as int, n as int) =~= Seq::<char>::empty());
    assert(cs@.subrange(0, n as int) == cs@);
    while k > 0 && cs[k - 1] != '.'
        invariant
            k <= n == cs@.len(),
            cs@ == file_name@,
            last_extension(cs@) == match last_extension(cs@.subrange(0, k as int)) {
                Some(e) => Some(e + cs@.subrange(k as int, n as int)),
                None => None,
            },
        decreases k,
    {
        proof {
            let pre = cs@.subrange(0, k as int);
            assert(pre.drop_last() == cs@.subrange(0, k - 1));
            assert(pre.last() == cs@[k - 1]);
            match last_extension(cs@.subrange(0, k - 1)) {
                Some(e) => {
                    assert(e.push(cs@[k - 1]) + cs@.subrange(k as int, n as int) == e
                        + cs@.subrange(k - 1, n as int));
                },
                None => {},
            }
        }
        k = k - 1;
    }
    let mut r = String::new();
    r.append(recipe_id);
    r.append(".");
    if k > 0 && k < n {
        let ext = crate::text::slice_of(&cs, k, n);
        proof {
            let pre = cs@.subrange(0, k as int);
            assert(pre.last() == '.');
            assert(Seq::<char>::empty() + cs@.subrange(k as int, n as int) == cs@.subrange(
                k as int,
                n as int,
            ));
        }
        r.append(crate::text::string_of(ext.as_slice()).as_str());
    } else {
        proof {
            if k > 0 {
                let pre = cs@.subrange(0, k as int);
                assert(pre.last() == '.');
                assert(Seq::<char>::empty() + cs@.subrange(k as int, n as int) =~= Seq::<char>::empty());
            } else {
                assert(cs@.subrange(0, 0) =~= Seq::<char>::empty());
            }
        }
        r.append("webp");
    }
    r
}

/// The seconds since the Unix epoch as a signed number: the seconds read
/// from the clock wrapped into `i64` as `as` does, and 0 when the clock is
/// before the epoch.
pub fn unix_seconds(since_epoch: Option<u64>) -> (r: i64)
    ensures
        since_epoch is None ==> r == 0,
        since_epoch matches Some(s) ==> (if s <= i64::MAX {
            r == s
        } else {
            r == s - 18446744073709551616int
        }),
{
    match since_epoch {
        Some(s) => {
            if s <= 9223372036854775807u64 {
                s as i64
            } else {
                ((s - 9223372036854775808u64) as i64) - 9223372036854775807i64 - 1
            }
        },
        None => 0,
    }
}

/// The current time in seconds since the Unix epoch (0 when the clock is
/// before the epoch).
pub fn unix_now() -> (r: i64) {
    let now = system_now();
    let secs = match since_epoch(&now) {
        Some(d) => Some(whole_seconds(&d)),
        None => None,
    };
    unix_seconds(secs)
}

/// `std::time::SystemTime`, a reading of the system clock.
#[verifier::external_type_specification]
#[verifier::external_body]
pub struct ExSystemTime(std::time::SystemTime);

/// Calls `std::time::SystemTime::now`: the current reading of the system
/// clock. Nothing is claimed of the reading.
#[verifier::external_body]
fn system_now() -> std::time::SystemTime {
    std::time::SystemTime::now()
}

/// Calls `std::time::SystemTime::duration_since` with the Unix epoch: the
/// time since the epoch, or `None` when the reading is before it. Nothing
/// is claimed of the span.
#[verifier::external_body]
fn since_epoch(t: &std::time::SystemTime) -> Option<std::time::Duration> {
    t.duration_since(std::time::UNIX_EPOCH).ok()
}

/// Calls `std::time::Duration::as_secs`: the whole seconds of the span.
/// Nothing is claimed of them.
#[verifier::external_body]
fn whole_seconds(d: &std::time::Duration) -> u64 {
    d.as_secs()
}

} // verus!

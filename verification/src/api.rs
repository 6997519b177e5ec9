//! The Mealie REST API as the library sees it: the payload types, the
//! endpoints of a server, how the paged collections are walked, and the
//! JSON bodies sent for shopping-list edits.

use vstd::prelude::*;
use crate::json::{JsonModel, JsonValue, lookup, get_spec, first_spec, lemma_field_models};
use crate::text::{
    owned, views, strip_trailing, trim_end_char, signed_decimal, i64_to_string, is_blank, trim,
    trim_spec,
};

verus! {

/// A tag or category attached to a recipe.
#[derive(Debug, Clone, PartialEq)]
pub struct MealieTag {
    pub name: String,
}

/// One recipe of the paged `GET /api/recipes` collection.
#[derive(Debug, Clone, PartialEq)]
pub struct MealieRecipeSummary {
    pub id: Option<String>,
    pub name: Option<String>,
    pub slug: Option<String>,
    pub description: Option<String>,
    pub image: Option<String>,
    pub tags: Option<Vec<MealieTag>>,
    /// Mealie's summary/detail payloads call this `recipeCategory`.
    pub categories: Option<Vec<MealieTag>>,
}

/// The names of an optional list of tags, in order; none when absent.
pub open spec fn tag_name_views(tags: Option<Vec<MealieTag>>) -> Seq<Seq<char>> {
    match tags {
        Some(list) => list@.map_values(|t: MealieTag| t.name@),
        None => Seq::empty(),
    }
}

/// The names of an optional list of tags, in order.
fn names_of(tags: &Option<Vec<MealieTag>>) -> (r: Vec<String>)
    ensures
        views(r@) == tag_name_views(*tags),
{
    let mut r: Vec<String> = Vec::new();
    match tags {
        Some(list) => {
            let mut i: usize = 0;
            while i < list.len()
                invariant
                    i <= list@.len(),
                    views(r@) == list@.take(i as int).map_values(|t: MealieTag| t.name@),
                decreases list@.len() - i,
            {
                let ghost old_r = r@;
                r.push(list[i].name.clone());
                assert(views(r@) =~= views(old_r).push(list@[i as int].name@));
                assert(list@.take(i + 1) == list@.take(i as int).push(list@[i as int]));
                assert(views(r@) =~= list@.take(i + 1).map_values(|t: MealieTag| t.name@));
                i = i + 1;
            }
            assert(list@.take(list@.len() as int) == list@);
        },
        None => {
            assert(views(r@) =~= Seq::<Seq<char>>::empty());
        },
    }
    r
}

impl MealieRecipeSummary {
    /// The names of the recipe's tags, in order; empty when it has none.
    pub fn tag_names(&self) -> (r: Vec<String>)
        ensures
            views(r@) == tag_name_views(self.tags),
    {
        names_of(&self.tags)
    }

    /// The names of the recipe's categories, in order; empty when it has
    /// none.
    pub fn category_names(&self) -> (r: Vec<String>)
        ensures
            views(r@) == tag_name_views(self.categories),
    {
        names_of(&self.categories)
    }
}

/// A single shopping-list item as served by Mealie. The summary page and
/// the list detail both embed these (the detail embeds them under
/// `listItems`).
#[derive(Debug, Clone, PartialEq)]
pub struct MealieShoppingListItem {
    pub id: Option<String>,
    pub display: Option<String>,
    pub note: Option<String>,
    pub checked: bool,
    pub position: i64,
}

/// A list summary row from `GET /api/households/shopping/lists`.
#[derive(Debug, Clone, PartialEq)]
pub struct MealieShoppingListSummary {
    pub id: Option<String>,
    pub name: Option<String>,
}

/// Full shopping-list detail (`GET /api/households/shopping/lists/{id}`),
/// including the items belonging to the list.
#[derive(Debug, Clone, PartialEq)]
pub struct MealieShoppingList {
    pub id: Option<String>,
    pub name: Option<String>,
    pub list_items: Vec<MealieShoppingListItem>,
}

/// How many items one page of a paged collection asks for.
pub const PAGE_SIZE: usize = 100;

/// The endpoints of one Mealie server and the token that authorizes them.
pub struct MealieClient {
    base_url: String,
    token: String,
}

impl MealieClient {
    /// The server's base URL, without trailing slashes.
    pub closed spec fn base(&self) -> Seq<char> {
        self.base_url@
    }

    /// The bearer token.
    pub closed spec fn token_view(&self) -> Seq<char> {
        self.token@
    }

    /// A client for the server at `base_url`; trailing slashes of the URL
    /// are dropped.
    pub fn new(base_url: String, token: String) -> (c: Self)
        ensures
            c.base() == strip_trailing(base_url@, '/'),
            c.token_view() == token@,
    {
        MealieClient { base_url: trim_end_char(base_url.as_str(), '/'), token }
    }

    /// The server's base URL.
    pub fn base_url(&self) -> (r: &str)
        ensures
            r@ == self.base(),
    {
        self.base_url.as_str()
    }

    /// The bearer token.
    pub fn token(&self) -> (r: &str)
        ensures
            r@ == self.token_view(),
    {
        self.token.as_str()
    }

    /// `{base}/api/recipes`: the paged recipe collection.
    pub fn recipes_url(&self) -> (r: String)
        ensures
            r@ == self.base() + "/api/recipes"@,
    {
        let mut r = self.base_url.clone();
        r.append("/api/recipes");
        r
    }

    /// `{base}/api/recipes/{slug}`: one recipe's full payload.
    pub fn recipe_url(&self, slug: &str) -> (r: String)
        ensures
            r@ == self.base() + "/api/recipes/"@ + slug@,
    {
        let mut r = self.base_url.clone();
        r.append("/api/recipes/");
        r.append(slug);
        r
    }

    /// `{base}/api/media/recipes/{recipe_id}/images/{file_name}`: one image
    /// file of a recipe.
    pub fn image_url(&self, recipe_id: &str, file_name: &str) -> (r: String)
        ensures
            r@ == self.base() + "/api/media/recipes/"@ + recipe_id@ + "/images/"@ + file_name@,
    {
        let mut r = self.base_url.clone();
        r.append("/api/media/recipes/");
        r.append(recipe_id);
        r.append("/images/");
        r.append(file_name);
        r
    }

    /// `{base}/api/households/shopping/lists`: the paged collection of
    /// shopping lists.
    pub fn shopping_lists_url(&self) -> (r: String)
        ensures
            r@ == self.base() + "/api/households/shopping/lists"@,
    {
        let mut r = self.base_url.clone();
        r.append("/api/households/shopping/lists");
        r
    }

    /// `{base}/api/households/shopping/lists/{list_id}`: one shopping list
    /// with its items.
    pub fn shopping_list_url(&self, list_id: &str) -> (r: String)
        ensures
            r@ == self.base() + "/api/households/shopping/lists/"@ + list_id@,
    {
        let mut r = self.base_url.clone();
        r.append("/api/households/shopping/lists/");
        r.append(list_id);
        r
    }

    /// `{base}/api/households/shopping/lists/{list_id}/recipe/{recipe_id}`:
    /// adds a recipe's ingredients to a list.
    pub fn shopping_list_recipe_url(&self, list_id: &str, recipe_id: &str) -> (r: String)
        ensures
            r@ == self.base() + "/api/households/shopping/lists/"@ + list_id@ + "/recipe/"@
                + recipe_id@,
    {
        let mut r = self.base_url.clone();
        r.append("/api/households/shopping/lists/");
        r.append(list_id);
        r.append("/recipe/");
        r.append(recipe_id);
        r
    }

    /// `{base}/api/households/shopping/items`: creates shopping items.
    pub fn shopping_items_url(&self) -> (r: String)
        ensures
            r@ == self.base() + "/api/households/shopping/items"@,
    {
        let mut r = self.base_url.clone();
        r.append("/api/households/shopping/items");
        r
    }

    /// `{base}/api/households/shopping/items/{item_id}`: one shopping item.
    pub fn shopping_item_url(&self, item_id: &str) -> (r: String)
        ensures
            r@ == self.base() + "/api/households/shopping/items/"@ + item_id@,
    {
        let mut r = self.base_url.clone();
        r.append("/api/households/shopping/items/");
        r.append(item_id);
        r
    }
}


/// Whether the walk of a paged collection stops after page `page`, which
/// held `item_count` items, when the server reported `total_pages` pages
/// (0 when it did not say): it stops at a short page, and at the last page
/// the server announced.
pub open spec fn is_last_page(page: i64, item_count: usize, total_pages: i64) -> bool {
    item_count < PAGE_SIZE || (total_pages > 0 && page >= total_pages)
}

/// The page to request after page `page`, or `None` when the walk is over.
pub fn next_page(page: i64, item_count: usize, total_pages: i64) -> (r: Option<i64>)
    requires
        !is_last_page(page, item_count, total_pages) ==> page < i64::MAX,
    ensures
        is_last_page(page, item_count, total_pages) ==> r is None,
        !is_last_page(page, item_count, total_pages) ==> r == Some((page + 1) as i64),
        item_count < PAGE_SIZE ==> r is None,
        total_pages > 0 && page >= total_pages ==> r is None,
        item_count >= PAGE_SIZE && (total_pages <= 0 || page < total_pages) ==> r == Some((page + 1) as i64),
{
    if item_count < PAGE_SIZE || (total_pages > 0 && page >= total_pages) {
        None
    } else {
        Some(page + 1)
    }
}

/// Law: the walk of a paged collection stops exactly at a short page or at
/// the last page the server announced. A full page below the announced
/// number of pages (or with no number announced) is never the last, so
/// every page up to the announced last one is fetched; a short page, or
/// the announced last page, always is.
pub proof fn lemma_walk_stops_at_last_page(page: i64, item_count: usize, total_pages: i64)
    ensures
        item_count >= PAGE_SIZE && (total_pages <= 0 || page < total_pages) ==> !is_last_page(
            page,
            item_count,
            total_pages,
        ),
        item_count < PAGE_SIZE ==> is_last_page(page, item_count, total_pages),
        total_pages > 0 && page >= total_pages ==> is_last_page(page, item_count, total_pages),
{
}

/// The views of a list of (name, value) query parameters.
pub open spec fn pair_views(v: Seq<(String, String)>) -> Seq<(Seq<char>, Seq<char>)> {
    v.map_values(|p: (String, String)| (p.0@, p.1@))
}

/// The query of page `page` of the recipe collection.
pub fn recipes_page_query(page: i64) -> (r: Vec<(String, String)>)
    ensures
        pair_views(r@) == seq![("page"@, signed_decimal(page as int)), ("perPage"@, "100"@)],
{
    let mut r: Vec<(String, String)> = Vec::new();
    r.push((owned("page"), i64_to_string(page)));
    r.push((owned("perPage"), owned("100")));
    assert(pair_views(r@) =~= seq![("page"@, signed_decimal(page as int)), ("perPage"@, "100"@)]);
    r
}

/// The query of page `page` of the shopping-list collection, ordered by
/// name.
pub fn shopping_lists_page_query(page: i64) -> (r: Vec<(String, String)>)
    ensures
        pair_views(r@) == seq![
            ("orderBy"@, "name"@),
            ("orderDirection"@, "asc"@),
            ("page"@, signed_decimal(page as int)),
            ("perPage"@, "100"@),
        ],
{
    let mut r: Vec<(String, String)> = Vec::new();
    r.push((owned("orderBy"), owned("name")));
    r.push((owned("orderDirection"), owned("asc")));
    r.push((owned("page"), i64_to_string(page)));
    r.push((owned("perPage"), owned("100")));
    assert(pair_views(r@) =~= seq![
        ("orderBy"@, "name"@),
        ("orderDirection"@, "asc"@),
        ("page"@, signed_decimal(page as int)),
        ("perPage"@, "100"@),
    ]);
    r
}

/// The image files to try for a recipe's photo, in order: the preferred
/// resolution, then the original.
pub fn image_candidates(preferred: &str) -> (r: Vec<String>)
    ensures
        views(r@) == seq![preferred@, "original.webp"@],
{
    let mut r: Vec<String> = Vec::new();
    r.push(owned(preferred));
    r.push(owned("original.webp"));
    assert(views(r@) =~= seq![preferred@, "original.webp"@]);
    r
}

/// The body that creates an item: only the note and the list are given;
/// Mealie computes the display text from the note.
pub fn create_item_body(list_id: &str, note: &str) -> (r: JsonValue)
    ensures
        r.model() == JsonModel::Object(
            seq![
                ("note"@, JsonModel::Text(note@)),
                ("shoppingListId"@, JsonModel::Text(list_id@)),
            ],
        ),
{
    let mut fields: Vec<(String, JsonValue)> = Vec::new();
    fields.push((owned("note"), JsonValue::Text(owned(note))));
    fields.push((owned("shoppingListId"), JsonValue::Text(owned(list_id))));
    proof {
        lemma_field_models(fields@);
    }
    let r = JsonValue::Object(fields);
    assert(crate::json::field_models(fields@) =~= seq![
        ("note"@, JsonModel::Text(note@)),
        ("shoppingListId"@, JsonModel::Text(list_id@)),
    ]);
    r
}

/// The fields that the item update (a full `PUT`) accepts, in order.
pub const SHOPPING_ITEM_EDITABLE: [&'static str; 14] = [
    "shoppingListId",
    "checked",
    "display",
    "note",
    "position",
    "quantity",
    "extras",
    "food",
    "unit",
    "foodId",
    "unitId",
    "labelId",
    "referencedRecipe",
    "recipeReferences",
];

/// The editable field names.
pub open spec fn editable_keys() -> Seq<Seq<char>> {
    SHOPPING_ITEM_EDITABLE@.map_values(|k: &str| k@)
}

/// The fields of the update body built from `item` for the first `keys`:
/// each key in order, with `checked` set to the requested flag and every
/// other key copied from the item when the item has it.
pub open spec fn update_fields(item: JsonModel, keys: Seq<Seq<char>>, checked: bool) -> Seq<
    (Seq<char>, JsonModel),
>
    decreases keys.len(),
{
    if keys.len() == 0 {
        Seq::empty()
    } else {
        let rest = update_fields(item, keys.drop_last(), checked);
        let k = keys.last();
        if k == "checked"@ {
            rest.push((k, JsonModel::Bool(checked)))
        } else {
            match get_spec(item, k) {
                Some(v) => rest.push((k, v)),
                None => rest,
            }
        }
    }
}

/// Builds the `PUT` body for a shopping item: the fetched item reduced to
/// its editable fields, with `checked` forced to the requested value.
pub fn shopping_item_update_body(item: &JsonValue, checked: bool) -> (r: JsonValue)
    ensures
        r.model() == JsonModel::Object(update_fields(item.model(), editable_keys(), checked)),
{
    let mut fields: Vec<(String, JsonValue)> = Vec::new();
    let mut i: usize = 0;
    while i < 14
        invariant
            i <= 14,
            crate::json::field_models(fields@) == update_fields(
                item.model(),
                editable_keys().take(i as int),
                checked,
            ),
        decreases 14 - i,
    {
        let key: &str = SHOPPING_ITEM_EDITABLE[i];
        let ghost before = fields@;
        let ghost keys = editable_keys().take(i + 1);
        assert(keys.drop_last() == editable_keys().take(i as int));
        assert(keys.last() == key@);
        if crate::text::str_eq(key, "checked") {
            let flag = JsonValue::Bool(checked);
            assert(flag.model() == JsonModel::Bool(checked));
            fields.push((owned(key), flag));
            assert(fields@.drop_last() == before);
            assert(fields@.last().1.model() == JsonModel::Bool(checked));
            assert(crate::json::field_models(fields@) == crate::json::field_models(before).push(
                (key@, JsonModel::Bool(checked)),
            ));
        } else {
            match item.get(key) {
                Some(v) => {
                    let copy = v.duplicate();
                    fields.push((owned(key), copy));
                    assert(fields@.drop_last() == before);
                    assert(crate::json::field_models(fields@) == crate::json::field_models(
                        before,
                    ).push((key@, v.model())));
                },
                None => {},
            }
        }
        assert(crate::json::field_models(fields@) == update_fields(item.model(), keys, checked));
        i = i + 1;
    }
    assert(editable_keys().take(14) == editable_keys());
    JsonValue::Object(fields)
}

/// The first element of the array held by field `key` of a bulk-edit
/// response, or `message` when there is none.
fn first_reported(response: &JsonValue, key: &str, message: &str) -> (r: Result<JsonValue, String>)
    ensures
        match r {
            Ok(x) => match get_spec(response.model(), key@) {
                Some(a) => first_spec(a) == Some(x.model()),
                None => false,
            },
            Err(e) => e@ == message@ && match get_spec(response.model(), key@) {
                Some(a) => first_spec(a) is None,
                None => true,
            },
        },
{
    match response.first_of_field(key) {
        Some(x) => Ok(x.duplicate()),
        None => Err(owned(message)),
    }
}

/// The item that a create response reports under `createdItems`.
pub fn created_item(response: &JsonValue) -> (r: Result<JsonValue, String>)
    ensures
        match r {
            Ok(x) => match get_spec(response.model(), "createdItems"@) {
                Some(a) => first_spec(a) == Some(x.model()),
                None => false,
            },
            Err(e) => e@ == "Server did not return the created item"@ && match get_spec(
                response.model(),
                "createdItems"@,
            ) {
                Some(a) => first_spec(a) is None,
                None => true,
            },
        },
{
    first_reported(response, "createdItems", "Server did not return the created item")
}

/// The item that an update response reports under `updatedItems`.
pub fn updated_item(response: &JsonValue) -> (r: Result<JsonValue, String>)
    ensures
        match r {
            Ok(x) => match get_spec(response.model(), "updatedItems"@) {
                Some(a) => first_spec(a) == Some(x.model()),
                None => false,
            },
            Err(e) => e@ == "Server did not return the updated item"@ && match get_spec(
                response.model(),
                "updatedItems"@,
            ) {
                Some(a) => first_spec(a) is None,
                None => true,
            },
        },
{
    first_reported(response, "updatedItems", "Server did not return the updated item")
}


proof fn lemma_lookup_push(fields: Seq<(Seq<char>, JsonModel)>, f: (Seq<char>, JsonModel), k: Seq<char>)
    ensures
        lookup(fields.push(f), k) == (if lookup(fields, k) is Some {
            lookup(fields, k)
        } else if f.0 == k {
            Some(f.1)
        } else {
            None
        }),
    decreases fields.len(),
{
    if fields.len() > 0 {
        assert(fields.push(f).drop_first() == fields.drop_first().push(f));
        assert(fields.push(f)[0] == fields[0]);
        lemma_lookup_push(fields.drop_first(), f, k);
    } else {
        assert(fields.push(f)[0] == f);
        assert(fields.push(f).drop_first().len() == 0);
        assert(lookup(fields.push(f).drop_first(), k) is None);
    }
}

proof fn lemma_update_fields_lookup(item: JsonModel, keys: Seq<Seq<char>>, checked: bool, k: Seq<char>)
    requires
        keys.no_duplicates(),
    ensures
        lookup(update_fields(item, keys, checked), k) == (if !keys.contains(k) {
            None
        } else if k == "checked"@ {
            Some(JsonModel::Bool(checked))
        } else {
            get_spec(item, k)
        }),
    decreases keys.len(),
{
    if keys.len() > 0 {
        let d = keys.drop_last();
        assert(d.no_duplicates());
        lemma_update_fields_lookup(item, d, checked, k);
        let rest = update_fields(item, d, checked);
        let last = keys.last();
        assert(keys == d.push(last));
        assert(!d.contains(last)) by {
            if d.contains(last) {
                let j = choose|j: int| 0 <= j < d.len() && d[j] == last;
                assert(keys[j] == keys[keys.len() - 1]);
            }
        }
        if last == "checked"@ {
            lemma_lookup_push(rest, (last, JsonModel::Bool(checked)), k);
        } else {
            match get_spec(item, last) {
                Some(v) => lemma_lookup_push(rest, (last, v), k),
                None => {},
            }
        }
        assert(keys.contains(k) == (d.contains(k) || k == last));
    }
}

/// Law: the item update body holds exactly the editable fields that the
/// item has, with `checked` always present and set to the requested flag;
/// no other field of the item is sent.
pub proof fn lemma_update_body_fields(item: JsonModel, checked: bool, k: Seq<char>)
    ensures
        lookup(update_fields(item, editable_keys(), checked), k) == (if k == "checked"@ {
            Some(JsonModel::Bool(checked))
        } else if editable_keys().contains(k) {
            get_spec(item, k)
        } else {
            None
        }),
{
    reveal_strlit("shoppingListId");
    reveal_strlit("checked");
    reveal_strlit("display");
    reveal_strlit("note");
    reveal_strlit("position");
    reveal_strlit("quantity");
    reveal_strlit("extras");
    reveal_strlit("food");
    reveal_strlit("unit");
    reveal_strlit("foodId");
    reveal_strlit("unitId");
    reveal_strlit("labelId");
    reveal_strlit("referencedRecipe");
    reveal_strlit("recipeReferences");
    let keys = editable_keys();
    assert(keys.len() == 14);
    assert(keys.no_duplicates()) by {
        assert forall|i: int, j: int| 0 <= i < keys.len() && 0 <= j < keys.len() && i != j implies keys[i] != keys[j] by {
            if keys[i] == keys[j] {
                assert(keys[i].len() == keys[j].len());
                assert(keys[i][0] == keys[j][0]);
                assert(keys[i][keys[i].len() - 1] == keys[j][keys[j].len() - 1]);
            }
        }
    }
    assert(keys[1] == "checked"@);
    lemma_update_fields_lookup(item, keys, checked, k);
}


/// The query of the bulk delete of shopping items: one `ids` parameter
/// per item, in order.
pub fn delete_items_query(ids: &Vec<String>) -> (r: Vec<(String, String)>)
    ensures
        pair_views(r@) == views(ids@).map_values(|id: Seq<char>| ("ids"@, id)),
{
    let mut r: Vec<(String, String)> = Vec::new();
    let mut i: usize = 0;
    while i < ids.len()
        invariant
            i <= ids@.len(),
            pair_views(r@) == views(ids@.take(i as int)).map_values(|id: Seq<char>| ("ids"@, id)),
        decreases ids@.len() - i,
    {
        let ghost before = r@;
        r.push((owned("ids"), ids[i].clone()));
        assert(pair_views(r@) =~= pair_views(before).push(("ids"@, ids@[i as int]@)));
        assert(ids@.take(i + 1) == ids@.take(i as int).push(ids@[i as int]));
        assert(views(ids@.take(i + 1)).map_values(|id: Seq<char>| ("ids"@, id)) =~= views(
            ids@.take(i as int),
        ).map_values(|id: Seq<char>| ("ids"@, id)).push(("ids"@, ids@[i as int]@)));
        i = i + 1;
    }
    assert(ids@.take(ids@.len() as int) == ids@);
    r
}

/// `context: detail`, the shape of every error the client reports.
pub fn error_with_detail(context: &str, detail: &str) -> (r: String)
    ensures
        r@ == context@ + ": "@ + detail@,
{
    let mut r = owned(context);
    r.append(": ");
    r.append(detail);
    r
}

/// The HTTP status of a failed response, followed by the response body
/// when the server sent one (trimmed).
pub open spec fn status_detail_spec(status: Seq<char>, body: Seq<char>) -> Seq<char> {
    if trim_spec(body).len() > 0 {
        status + ": "@ + trim_spec(body)
    } else {
        status
    }
}

/// The HTTP status of a failed response, with the response body when there
/// is one, so that server errors can be diagnosed.
pub fn status_detail(status: &str, body: &str) -> (r: String)
    ensures
        r@ == status_detail_spec(status@, body@),
{
    let mut r = owned(status);
    if !is_blank(body) {
        r.append(": ");
        r.append(trim(body).as_str());
    }
    r
}

/// The error for a failed response about a named resource:
/// `{context} {status detail} for {kind} '{name}'`.
pub fn resource_status_error(context: &str, status: &str, body: &str, kind: &str, name: &str) -> (r:
    String)
    ensures
        r@ == context@ + " "@ + status_detail_spec(status@, body@) + " for "@ + kind@ + " '"@ + name@
            + "'"@,
{
    let mut r = owned(context);
    r.append(" ");
    r.append(status_detail(status, body).as_str());
    r.append(" for ");
    r.append(kind);
    r.append(" '");
    r.append(name);
    r.append("'");
    r
}

/// The error when neither image candidate of a recipe could be
/// downloaded.
pub fn no_image_error(recipe_id: &str) -> (r: String)
    ensures
        r@ == "No image available for recipe '"@ + recipe_id@ + "'"@,
{
    let mut r = owned("No image available for recipe '");
    r.append(recipe_id);
    r.append("'");
    r
}

} // verus!

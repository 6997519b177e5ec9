//! The SQLite cache: its schema, the statements that read and write the
//! `recipes`, `shopping_lists` and `sync_meta` tables, and the decoding of
//! the rows they return. Executing a statement is the application's I/O;
//! what is executed and how a row is read back is decided here.

use vstd::prelude::*;
use crate::text::{
    owned, join, join_spec, tokens, tokens_spec, views, trim, trim_spec, is_blank, is_ws, usize_to_string,
    opt_view, lemma_trim_padding,
};
use crate::like::{
    like_match, contains_pattern, token_pattern_spec, contains_pattern_of, token_pattern_of, comma_wrapped,
    contains_folded, same_folded, lemma_contains_pattern, lemma_token_pattern,
};

verus! {

/// A value bound to a statement parameter or read from a result cell.
#[derive(Debug, Clone, PartialEq)]
pub enum SqlValue {
    Null,
    Integer(i64),
    Text(String),
    /// A real cell, which no column of this schema holds.
    Real,
    /// A blob cell, which no column of this schema holds.
    Blob,
}

/// The model of a `SqlValue`.
pub enum SqlView {
    Null,
    Integer(int),
    Text(Seq<char>),
    Real,
    Blob,
}

impl View for SqlValue {
    type V = SqlView;

    open spec fn view(&self) -> SqlView {
        match self {
            SqlValue::Null => SqlView::Null,
            SqlValue::Integer(i) => SqlView::Integer(*i as int),
            SqlValue::Text(s) => SqlView::Text(s@),
            SqlValue::Real => SqlView::Real,
            SqlValue::Blob => SqlView::Blob,
        }
    }
}

/// The models of a list of values.
pub open spec fn sql_views(v: Seq<SqlValue>) -> Seq<SqlView> {
    v.map_values(|x: SqlValue| x@)
}

/// An optional text as a parameter: `NULL` when absent.
pub open spec fn opt_text(o: Option<Seq<char>>) -> SqlView {
    match o {
        Some(s) => SqlView::Text(s),
        None => SqlView::Null,
    }
}

/// A SQL statement and the values of its parameters, in order.
pub struct Statement {
    pub sql: String,
    pub params: Vec<SqlValue>,
}

/// An optional text as a parameter.
fn opt_param(o: Option<&str>) -> (r: SqlValue)
    ensures
        r@ == opt_text(
            match o {
                Some(s) => Some(s@),
                None => None,
            },
        ),
{
    match o {
        Some(s) => SqlValue::Text(owned(s)),
        None => SqlValue::Null,
    }
}

/// The view of an optional `&str`.
pub open spec fn opt_str(o: Option<&str>) -> Option<Seq<char>> {
    match o {
        Some(s) => Some(s@),
        None => None,
    }
}

/// The schema: the three tables and their indexes. Every statement is
/// `IF NOT EXISTS`, so running it on every start is harmless.
pub const SCHEMA_SQL: &'static str = "CREATE TABLE IF NOT EXISTS recipes (id TEXT PRIMARY KEY, name TEXT NOT NULL, description TEXT, image_path TEXT, raw_json TEXT NOT NULL, tags TEXT, marked_offline INTEGER NOT NULL DEFAULT 0, last_synced_at INTEGER); CREATE TABLE IF NOT EXISTS shopping_lists (id TEXT PRIMARY KEY, name TEXT NOT NULL, raw_json TEXT NOT NULL, last_synced_at INTEGER); CREATE TABLE IF NOT EXISTS sync_meta (key TEXT PRIMARY KEY, value TEXT); CREATE INDEX IF NOT EXISTS idx_recipes_name ON recipes(name); CREATE INDEX IF NOT EXISTS idx_recipes_marked_offline ON recipes(marked_offline);";

/// The columns added to `recipes` after its first version, as (column,
/// declared type), in the order they are added.
pub const ADDED_RECIPE_COLUMNS: [(&'static str, &'static str); 3] = [
    ("slug", "TEXT"),
    ("remote_image", "TEXT"),
    ("categories", "TEXT"),
];

/// `PRAGMA table_info({table})`: one row per column of `table`, the
/// column's name in the second cell.
pub fn table_info_sql(table: &str) -> (r: String)
    ensures
        r@ == "PRAGMA table_info("@ + table@ + ")"@,
{
    let mut r = owned("PRAGMA table_info(");
    r.append(table);
    r.append(")");
    r
}

/// `ALTER TABLE {table} ADD COLUMN {column} {decl};`
pub open spec fn add_column_spec(table: Seq<char>, column: Seq<char>, decl: Seq<char>) -> Seq<char> {
    "ALTER TABLE "@ + table + " ADD COLUMN "@ + column + " "@ + decl + ";"@
}

/// Whether a column named `column` is among the names that `PRAGMA
/// table_info` returned (`None` stands for a row whose name could not be
/// read, which matches nothing).
pub open spec fn has_column(names: Seq<Option<String>>, column: Seq<char>) -> bool {
    lists_column(listed_names(names), column)
}

/// The names that `PRAGMA table_info` listed, as text.
pub open spec fn listed_names(names: Seq<Option<String>>) -> Seq<Option<Seq<char>>> {
    names.map_values(|n: Option<String>| opt_view(n))
}

/// Whether `column` is among the listed names.
pub open spec fn lists_column(names: Seq<Option<Seq<char>>>, column: Seq<char>) -> bool {
    exists|i: int| 0 <= i < names.len() && #[trigger] names[i] == Some(column)
}

/// The column names of a table after one migration step for `column`:
/// unchanged when it is listed, else with `column` appended (what its
/// `ALTER TABLE ... ADD COLUMN` does to `PRAGMA table_info`).
pub open spec fn migrate_step(names: Seq<Option<Seq<char>>>, column: Seq<char>) -> Seq<Option<Seq<char>>> {
    if lists_column(names, column) {
        names
    } else {
        names.push(Some(column))
    }
}

/// The column names of a table after the migration of `columns`, one
/// step per column in order.
pub open spec fn migrate_spec(names: Seq<Option<Seq<char>>>, columns: Seq<Seq<char>>) -> Seq<
    Option<Seq<char>>,
>
    decreases columns.len(),
{
    if columns.len() == 0 {
        names
    } else {
        migrate_spec(migrate_step(names, columns[0]), columns.drop_first())
    }
}

proof fn lemma_migrate_keeps(names: Seq<Option<Seq<char>>>, columns: Seq<Seq<char>>, c: Seq<char>)
    requires
        lists_column(names, c),
    ensures
        lists_column(migrate_spec(names, columns), c),
    decreases columns.len(),
{
    if columns.len() > 0 {
        let n2 = migrate_step(names, columns[0]);
        let i = choose|i: int| 0 <= i < names.len() && #[trigger] names[i] == Some(c);
        assert(n2[i] == Some(c));
        lemma_migrate_keeps(n2, columns.drop_first(), c);
    }
}

proof fn lemma_migrate_lists_all(names: Seq<Option<Seq<char>>>, columns: Seq<Seq<char>>)
    ensures
        forall|j: int| 0 <= j < columns.len() ==> lists_column(migrate_spec(names, columns), #[trigger] columns[j]),
    decreases columns.len(),
{
    if columns.len() > 0 {
        let n2 = migrate_step(names, columns[0]);
        if !lists_column(names, columns[0]) {
            assert(n2[names.len() as int] == Some(columns[0]));
        }
        lemma_migrate_keeps(n2, columns.drop_first(), columns[0]);
        lemma_migrate_lists_all(n2, columns.drop_first());
        assert forall|j: int| 0 <= j < columns.len() implies lists_column(
            migrate_spec(names, columns),
            #[trigger] columns[j],
        ) by {
            if j > 0 {
                assert(columns[j] == columns.drop_first()[j - 1]);
            }
        }
    }
}

proof fn lemma_migrate_listed(names: Seq<Option<Seq<char>>>, columns: Seq<Seq<char>>)
    requires
        forall|j: int| 0 <= j < columns.len() ==> lists_column(names, #[trigger] columns[j]),
    ensures
        migrate_spec(names, columns) == names,
    decreases columns.len(),
{
    if columns.len() > 0 {
        assert(lists_column(names, columns[0]));
        let rest = columns.drop_first();
        assert forall|j: int| 0 <= j < rest.len() implies lists_column(names, #[trigger] rest[j]) by {
            assert(rest[j] == columns[j + 1]);
        }
        lemma_migrate_listed(names, rest);
    }
}

/// Law: the migrations are idempotent. After one run every migrated
/// column is listed, and a second run on what the first left changes
/// nothing: it adds no column, so it can raise no duplicate-column error.
pub proof fn lemma_migrations_idempotent(names: Seq<Option<Seq<char>>>, columns: Seq<Seq<char>>)
    ensures
        forall|j: int| 0 <= j < columns.len() ==> lists_column(migrate_spec(names, columns), #[trigger] columns[j]),
        migrate_spec(migrate_spec(names, columns), columns) == migrate_spec(names, columns),
{
    lemma_migrate_lists_all(names, columns);
    lemma_migrate_listed(migrate_spec(names, columns), columns);
}

/// The statement that adds `column` to `table`, or `None` when the table
/// already has it: running the migrations twice changes nothing the second
/// time.
pub fn add_column_if_missing(table: &str, column: &str, decl: &str, names: &Vec<Option<String>>) -> (r:
    Option<String>)
    ensures
        has_column(names@, column@) ==> r is None,
        !has_column(names@, column@) ==> (r matches Some(sql) && sql@ == add_column_spec(
            table@,
            column@,
            decl@,
        )),
{
    let mut i: usize = 0;
    while i < names.len()
        invariant
            i <= names@.len(),
            forall|j: int| 0 <= j < i ==> #[trigger] listed_names(names@)[j] != Some(column@),
        decreases names@.len() - i,
    {
        match &names[i] {
            Some(n) => {
                if crate::text::str_eq(n.as_str(), column) {
                    assert(listed_names(names@)[i as int] == Some(column@));
                    return None;
                }
            },
            None => {},
        }
        i = i + 1;
    }
    let mut r = owned("ALTER TABLE ");
    r.append(table);
    r.append(" ADD COLUMN ");
    r.append(column);
    r.append(" ");
    r.append(decl);
    r.append(";");
    Some(r)
}


/// Inserts a recipe's metadata, or updates it when the id is cached. The
/// update never names `marked_offline`, and keeps the cached image path.
pub const UPSERT_RECIPE_SQL: &'static str = "INSERT INTO recipes (id, name, slug, description, remote_image, raw_json, tags, categories, last_synced_at) VALUES (?1, ?2, ?3, ?4, ?5, ?6, ?7, ?8, ?9) ON CONFLICT(id) DO UPDATE SET name = excluded.name, slug = excluded.slug, description = excluded.description, remote_image = excluded.remote_image, image_path = COALESCE(excluded.image_path, recipes.image_path), raw_json = excluded.raw_json, tags = excluded.tags, categories = excluded.categories, last_synced_at = excluded.last_synced_at";

/// Overwrites a recipe's payload, and its image path when one is given.
pub const UPDATE_RECIPE_PAYLOAD_SQL: &'static str = "UPDATE recipes SET raw_json = ?1, image_path = COALESCE(?2, image_path), last_synced_at = ?3 WHERE id = ?4";

/// Reads a recipe's payload.
pub const RECIPE_RAW_JSON_SQL: &'static str = "SELECT raw_json FROM recipes WHERE id = ?1";

/// Sets a recipe's offline flag, and its image path when one is given.
pub const SET_OFFLINE_SQL: &'static str = "UPDATE recipes SET marked_offline = ?1, image_path = COALESCE(?2, image_path) WHERE id = ?3";

/// The recipes with a server image but no cached copy.
pub const RECIPES_NEEDING_IMAGE_SQL: &'static str = "SELECT id, remote_image FROM recipes WHERE remote_image IS NOT NULL AND remote_image != '' AND (image_path IS NULL OR image_path = '')";

/// Records a recipe's cached image path.
pub const SET_RECIPE_IMAGE_SQL: &'static str = "UPDATE recipes SET image_path = ?1 WHERE id = ?2";

/// Reads a recipe's cached image path.
pub const RECIPE_IMAGE_PATH_SQL: &'static str = "SELECT image_path FROM recipes WHERE id = ?1";

/// The recipes flagged for offline use.
pub const OFFLINE_RECIPES_SQL: &'static str = "SELECT id, slug, remote_image FROM recipes WHERE marked_offline = 1";

/// Inserts a shopping list, or updates it when the id is cached.
pub const UPSERT_SHOPPING_LIST_SQL: &'static str = "INSERT INTO shopping_lists (id, name, raw_json, last_synced_at) VALUES (?1, ?2, ?3, ?4) ON CONFLICT(id) DO UPDATE SET name = excluded.name, raw_json = excluded.raw_json, last_synced_at = excluded.last_synced_at";

/// Every cached shopping list, by name.
pub const SHOPPING_LISTS_SQL: &'static str = "SELECT id, name, raw_json FROM shopping_lists ORDER BY name";

/// Reads a `sync_meta` value.
pub const GET_SYNC_META_SQL: &'static str = "SELECT value FROM sync_meta WHERE key = ?1";

/// Sets a `sync_meta` value.
pub const SET_SYNC_META_SQL: &'static str = "INSERT INTO sync_meta (key, value) VALUES (?1, ?2) ON CONFLICT(key) DO UPDATE SET value = excluded.value";

/// The columns of a recipe summary row, in order.
pub const RECIPE_SUMMARY_SELECT: &'static str = "SELECT id, slug, name, description, image_path, tags, categories, marked_offline FROM recipes";

/// The parameters of `UPSERT_RECIPE_SQL`: tags and categories are stored
/// comma-joined.
pub open spec fn upsert_recipe_params(
    id: Seq<char>,
    name: Seq<char>,
    slug: Option<Seq<char>>,
    description: Option<Seq<char>>,
    remote_image: Option<Seq<char>>,
    raw_json: Seq<char>,
    tags: Seq<Seq<char>>,
    categories: Seq<Seq<char>>,
    synced_at: int,
) -> Seq<SqlView> {
    seq![
        SqlView::Text(id),
        SqlView::Text(name),
        opt_text(slug),
        opt_text(description),
        opt_text(remote_image),
        SqlView::Text(raw_json),
        SqlView::Text(join_spec(tags, ","@)),
        SqlView::Text(join_spec(categories, ","@)),
        SqlView::Integer(synced_at),
    ]
}

/// Upserts a recipe's metadata. Tags and categories are stored
/// comma-joined.
pub fn upsert_recipe_statement(
    id: &str,
    name: &str,
    slug: Option<&str>,
    description: Option<&str>,
    remote_image: Option<&str>,
    raw_json: &str,
    tags: &Vec<String>,
    categories: &Vec<String>,
    synced_at: i64,
) -> (r: Statement)
    ensures
        r.sql@ == UPSERT_RECIPE_SQL@,
        sql_views(r.params@) == upsert_recipe_params(
            id@,
            name@,
            opt_str(slug),
            opt_str(description),
            opt_str(remote_image),
            raw_json@,
            views(tags@),
            views(categories@),
            synced_at as int,
        ),
{
    let mut params: Vec<SqlValue> = Vec::new();
    params.push(SqlValue::Text(owned(id)));
    params.push(SqlValue::Text(owned(name)));
    params.push(opt_param(slug));
    params.push(opt_param(description));
    params.push(opt_param(remote_image));
    params.push(SqlValue::Text(owned(raw_json)));
    params.push(SqlValue::Text(join(tags, ",")));
    params.push(SqlValue::Text(join(categories, ",")));
    params.push(SqlValue::Integer(synced_at));
    let r = Statement { sql: owned(UPSERT_RECIPE_SQL), params };
    assert(sql_views(r.params@) =~= seq![
        SqlView::Text(id@),
        SqlView::Text(name@),
        opt_text(opt_str(slug)),
        opt_text(opt_str(description)),
        opt_text(opt_str(remote_image)),
        SqlView::Text(raw_json@),
        SqlView::Text(join_spec(views(tags@), ","@)),
        SqlView::Text(join_spec(views(categories@), ","@)),
        SqlView::Integer(synced_at as int),
    ]);
    r
}

/// Overwrites a recipe's payload (replacing the `"{}"` placeholder of the
/// metadata pass) and, when given, records its cached image path.
pub fn update_recipe_payload_statement(id: &str, raw_json: &str, image_path: Option<&str>, synced_at: i64) -> (r:
    Statement)
    ensures
        r.sql@ == UPDATE_RECIPE_PAYLOAD_SQL@,
        sql_views(r.params@) == seq![
            SqlView::Text(raw_json@),
            opt_text(opt_str(image_path)),
            SqlView::Integer(synced_at as int),
            SqlView::Text(id@),
        ],
{
    let mut params: Vec<SqlValue> = Vec::new();
    params.push(SqlValue::Text(owned(raw_json)));
    params.push(opt_param(image_path));
    params.push(SqlValue::Integer(synced_at));
    params.push(SqlValue::Text(owned(id)));
    let r = Statement { sql: owned(UPDATE_RECIPE_PAYLOAD_SQL), params };
    assert(sql_views(r.params@) =~= seq![
        SqlView::Text(raw_json@),
        opt_text(opt_str(image_path)),
        SqlView::Integer(synced_at as int),
        SqlView::Text(id@),
    ]);
    r
}

/// A statement with one text parameter.
fn keyed_statement(sql: &str, key: &str) -> (r: Statement)
    ensures
        r.sql@ == sql@,
        sql_views(r.params@) == seq![SqlView::Text(key@)],
{
    let mut params: Vec<SqlValue> = Vec::new();
    params.push(SqlValue::Text(owned(key)));
    let r = Statement { sql: owned(sql), params };
    assert(sql_views(r.params@) =~= seq![SqlView::Text(key@)]);
    r
}

/// A statement without parameters.
fn plain_statement(sql: &str) -> (r: Statement)
    ensures
        r.sql@ == sql@,
        r.params@.len() == 0,
{
    Statement { sql: owned(sql), params: Vec::new() }
}

/// Reads the payload of recipe `id`.
pub fn recipe_raw_json_statement(id: &str) -> (r: Statement)
    ensures
        r.sql@ == RECIPE_RAW_JSON_SQL@,
        sql_views(r.params@) == seq![SqlView::Text(id@)],
{
    keyed_statement(RECIPE_RAW_JSON_SQL, id)
}

/// Marks (or unmarks) recipe `id` as available offline and, when given,
/// records its cached image path.
pub fn set_offline_statement(id: &str, offline: bool, image_path: Option<&str>) -> (r: Statement)
    ensures
        r.sql@ == SET_OFFLINE_SQL@,
        sql_views(r.params@) == seq![
            SqlView::Integer(if offline { 1 } else { 0 }),
            opt_text(opt_str(image_path)),
            SqlView::Text(id@),
        ],
{
    let mut params: Vec<SqlValue> = Vec::new();
    params.push(SqlValue::Integer(if offline { 1 } else { 0 }));
    params.push(opt_param(image_path));
    params.push(SqlValue::Text(owned(id)));
    let r = Statement { sql: owned(SET_OFFLINE_SQL), params };
    assert(sql_views(r.params@) =~= seq![
        SqlView::Integer(if offline { 1 } else { 0 }),
        opt_text(opt_str(image_path)),
        SqlView::Text(id@),
    ]);
    r
}

/// The recipes whose thumbnail is still to be cached.
pub fn recipes_needing_image_statement() -> (r: Statement)
    ensures
        r.sql@ == RECIPES_NEEDING_IMAGE_SQL@,
        r.params@.len() == 0,
{
    plain_statement(RECIPES_NEEDING_IMAGE_SQL)
}

/// Records where recipe `id`'s thumbnail is cached.
pub fn set_recipe_image_statement(id: &str, image_path: &str) -> (r: Statement)
    ensures
        r.sql@ == SET_RECIPE_IMAGE_SQL@,
        sql_views(r.params@) == seq![SqlView::Text(image_path@), SqlView::Text(id@)],
{
    let mut params: Vec<SqlValue> = Vec::new();
    params.push(SqlValue::Text(owned(image_path)));
    params.push(SqlValue::Text(owned(id)));
    let r = Statement { sql: owned(SET_RECIPE_IMAGE_SQL), params };
    assert(sql_views(r.params@) =~= seq![SqlView::Text(image_path@), SqlView::Text(id@)]);
    r
}

/// Reads recipe `id`'s cached image path.
pub fn recipe_image_path_statement(id: &str) -> (r: Statement)
    ensures
        r.sql@ == RECIPE_IMAGE_PATH_SQL@,
        sql_views(r.params@) == seq![SqlView::Text(id@)],
{
    keyed_statement(RECIPE_IMAGE_PATH_SQL, id)
}

/// The recipes flagged for offline use.
pub fn offline_recipes_statement() -> (r: Statement)
    ensures
        r.sql@ == OFFLINE_RECIPES_SQL@,
        r.params@.len() == 0,
{
    plain_statement(OFFLINE_RECIPES_SQL)
}

/// Upserts a shopping list's payload.
pub fn upsert_shopping_list_statement(id: &str, name: &str, raw_json: &str, synced_at: i64) -> (r:
    Statement)
    ensures
        r.sql@ == UPSERT_SHOPPING_LIST_SQL@,
        sql_views(r.params@) == seq![
            SqlView::Text(id@),
            SqlView::Text(name@),
            SqlView::Text(raw_json@),
            SqlView::Integer(synced_at as int),
        ],
{
    let mut params: Vec<SqlValue> = Vec::new();
    params.push(SqlValue::Text(owned(id)));
    params.push(SqlValue::Text(owned(name)));
    params.push(SqlValue::Text(owned(raw_json)));
    params.push(SqlValue::Integer(synced_at));
    let r = Statement { sql: owned(UPSERT_SHOPPING_LIST_SQL), params };
    assert(sql_views(r.params@) =~= seq![
        SqlView::Text(id@),
        SqlView::Text(name@),
        SqlView::Text(raw_json@),
        SqlView::Integer(synced_at as int),
    ]);
    r
}

/// Every cached shopping list, ordered by name.
pub fn shopping_lists_statement() -> (r: Statement)
    ensures
        r.sql@ == SHOPPING_LISTS_SQL@,
        r.params@.len() == 0,
{
    plain_statement(SHOPPING_LISTS_SQL)
}

/// Reads the `sync_meta` value of `key`.
pub fn get_sync_meta_statement(key: &str) -> (r: Statement)
    ensures
        r.sql@ == GET_SYNC_META_SQL@,
        sql_views(r.params@) == seq![SqlView::Text(key@)],
{
    keyed_statement(GET_SYNC_META_SQL, key)
}

/// Sets the `sync_meta` value of `key`.
pub fn set_sync_meta_statement(key: &str, value: &str) -> (r: Statement)
    ensures
        r.sql@ == SET_SYNC_META_SQL@,
        sql_views(r.params@) == seq![SqlView::Text(key@), SqlView::Text(value@)],
{
    let mut params: Vec<SqlValue> = Vec::new();
    params.push(SqlValue::Text(owned(key)));
    params.push(SqlValue::Text(owned(value)));
    let r = Statement { sql: owned(SET_SYNC_META_SQL), params };
    assert(sql_views(r.params@) =~= seq![SqlView::Text(key@), SqlView::Text(value@)]);
    r
}

/// `n` comma-separated `?` placeholders.
pub open spec fn placeholders(n: nat) -> Seq<char>
    decreases n,
{
    if n == 0 {
        Seq::empty()
    } else if n == 1 {
        "?"@
    } else {
        placeholders((n - 1) as nat) + ",?"@
    }
}

/// The ids as text parameters, in order.
pub open spec fn text_params(ids: Seq<String>) -> Seq<SqlView> {
    ids.map_values(|s: String| SqlView::Text(s@))
}

/// Deletes every cached shopping list whose id is not in `keep_ids`; with
/// no ids to keep, every cached list.
pub fn delete_shopping_lists_except_statement(keep_ids: &Vec<String>) -> (r: Statement)
    ensures
        keep_ids@.len() == 0 ==> r.sql@ == "DELETE FROM shopping_lists"@ && r.params@.len() == 0,
        keep_ids@.len() > 0 ==> r.sql@ == "DELETE FROM shopping_lists WHERE id NOT IN ("@
            + placeholders(keep_ids@.len()) + ")"@,
        keep_ids@.len() > 0 ==> sql_views(r.params@) == text_params(keep_ids@),
{
    if keep_ids.len() == 0 {
        return plain_statement("DELETE FROM shopping_lists");
    }
    let mut sql = owned("DELETE FROM shopping_lists WHERE id NOT IN (");
    let mut params: Vec<SqlValue> = Vec::new();
    let mut i: usize = 0;
    let ghost head = sql@;
    while i < keep_ids.len()
        invariant
            i <= keep_ids@.len(),
            sql@ == head + placeholders(i as nat),
            sql_views(params@) == text_params(keep_ids@.take(i as int)),
        decreases keep_ids@.len() - i,
    {
        if i == 0 {
            sql.append("?");
        } else {
            sql.append(",?");
        }
        let ghost old_params = params@;
        params.push(SqlValue::Text(keep_ids[i].clone()));
        assert(sql_views(params@) =~= sql_views(old_params).push(SqlView::Text(keep_ids@[i as int]@)));
        assert(keep_ids@.take(i + 1) == keep_ids@.take(i as int).push(keep_ids@[i as int]));
        assert(text_params(keep_ids@.take(i + 1)) =~= text_params(keep_ids@.take(i as int)).push(
            SqlView::Text(keep_ids@[i as int]@),
        ));
        proof {
            if i == 0 {
                assert(head + placeholders(0) == head);
            } else {
                assert(head + placeholders(i as nat) + ",?"@ == head + placeholders((i + 1) as nat));
            }
        }
        i = i + 1;
    }
    sql.append(")");
    assert(keep_ids@.take(keep_ids@.len() as int) == keep_ids@);
    Statement { sql, params }
}


/// The free-text filter: a case-insensitive substring of the name, the
/// comma-wrapped tags or the comma-wrapped categories.
pub const QUERY_CLAUSE: &'static str = "(name LIKE ? ESCAPE '\\' OR (',' || tags || ',') LIKE ? ESCAPE '\\' OR (',' || categories || ',') LIKE ? ESCAPE '\\')";

/// The category filter, on the comma-wrapped categories.
pub const CATEGORY_CLAUSE: &'static str = "(',' || categories || ',') LIKE ? ESCAPE '\\'";

/// The tag filter, on the comma-wrapped tags.
pub const TAG_CLAUSE: &'static str = "(',' || tags || ',') LIKE ? ESCAPE '\\'";

/// The term of a filter's text: the text trimmed, when that is not empty.
pub open spec fn term_spec(s: Seq<char>) -> Option<Seq<char>> {
    if trim_spec(s).len() > 0 {
        Some(trim_spec(s))
    } else {
        None
    }
}

/// The term of a filter: none for an absent or blank filter.
pub open spec fn filter_term(o: Option<&str>) -> Option<Seq<char>> {
    match o {
        Some(s) => term_spec(s@),
        None => None,
    }
}

/// The filter clauses of a search, in order.
pub open spec fn search_clauses(q: Option<Seq<char>>, c: Option<Seq<char>>, t: Option<Seq<char>>) -> Seq<
    Seq<char>,
> {
    (if q is Some {
        seq![QUERY_CLAUSE@]
    } else {
        Seq::empty()
    }) + (if c is Some {
        seq![CATEGORY_CLAUSE@]
    } else {
        Seq::empty()
    }) + (if t is Some {
        seq![TAG_CLAUSE@]
    } else {
        Seq::empty()
    })
}

/// The parameters of a search, in the order of its clauses: the escaped
/// free-text term as a substring pattern, three times, then the escaped
/// category and tag as whole-token patterns.
pub open spec fn search_params(q: Option<Seq<char>>, c: Option<Seq<char>>, t: Option<Seq<char>>) -> Seq<
    SqlView,
> {
    (match q {
        Some(x) => seq![
            SqlView::Text(contains_pattern(x)),
            SqlView::Text(contains_pattern(x)),
            SqlView::Text(contains_pattern(x)),
        ],
        None => Seq::empty(),
    }) + (match c {
        Some(x) => seq![SqlView::Text(token_pattern_spec(x))],
        None => Seq::empty(),
    }) + (match t {
        Some(x) => seq![SqlView::Text(token_pattern_spec(x))],
        None => Seq::empty(),
    })
}

/// The SQL of a search: the summary columns of every recipe matching all
/// the clauses, by name.
pub open spec fn search_sql(clauses: Seq<Seq<char>>) -> Seq<char> {
    RECIPE_SUMMARY_SELECT@ + (if clauses.len() > 0 {
        " WHERE "@ + join_spec(clauses, " AND "@)
    } else {
        Seq::empty()
    }) + " ORDER BY name"@
}

/// Appends a text parameter to `values`.
fn push_text(values: &mut Vec<SqlValue>, text: String)
    ensures
        sql_views(final(values)@) == sql_views(old(values)@).push(SqlView::Text(text@)),
{
    let ghost before = values@;
    values.push(SqlValue::Text(text));
    assert(sql_views(values@) =~= sql_views(before).push(SqlView::Text(text@)));
}

/// The trimmed term of a filter, when it is not blank.
fn term_of(o: Option<&str>) -> (r: Option<String>)
    ensures
        match r {
            Some(t) => filter_term(o) == Some(t@),
            None => filter_term(o) is None,
        },
{
    match o {
        Some(s) => {
            if is_blank(s) {
                None
            } else {
                Some(trim(s))
            }
        },
        None => None,
    }
}

/// The search of the recipe summaries: an optional free-text query
/// (substring of name, tags or categories), an optional exact category
/// and an optional exact tag; blank filters are ignored, and every
/// character of a term is taken literally.
pub fn recipe_search_statement(query: Option<&str>, category: Option<&str>, tag: Option<&str>) -> (r:
    Statement)
    ensures
        r.sql@ == search_sql(
            search_clauses(filter_term(query), filter_term(category), filter_term(tag)),
        ),
        sql_views(r.params@) == search_params(
            filter_term(query),
            filter_term(category),
            filter_term(tag),
        ),
{
    let ghost q = filter_term(query);
    let ghost c = filter_term(category);
    let ghost t = filter_term(tag);
    let mut clauses: Vec<String> = Vec::new();
    let mut values: Vec<SqlValue> = Vec::new();
    match term_of(query) {
        Some(x) => {
            clauses.push(owned(QUERY_CLAUSE));
            push_text(&mut values, contains_pattern_of(x.as_str()));
            push_text(&mut values, contains_pattern_of(x.as_str()));
            push_text(&mut values, contains_pattern_of(x.as_str()));
        },
        None => {},
    }
    let ghost cl1 = views(clauses@);
    let ghost v1 = sql_views(values@);
    assert(cl1 =~= search_clauses(q, None, None));
    assert(v1 =~= search_params(q, None, None));
    match term_of(category) {
        Some(x) => {
            clauses.push(owned(CATEGORY_CLAUSE));
            push_text(&mut values, token_pattern_of(x.as_str()));
            assert(views(clauses@) =~= cl1.push(CATEGORY_CLAUSE@));
        },
        None => {},
    }
    let ghost cl2 = views(clauses@);
    let ghost v2 = sql_views(values@);
    assert(cl2 =~= search_clauses(q, c, None));
    assert(v2 =~= search_params(q, c, None));
    match term_of(tag) {
        Some(x) => {
            clauses.push(owned(TAG_CLAUSE));
            push_text(&mut values, token_pattern_of(x.as_str()));
            assert(views(clauses@) =~= cl2.push(TAG_CLAUSE@));
        },
        None => {},
    }
    assert(views(clauses@) =~= search_clauses(q, c, t));
    assert(sql_views(values@) =~= search_params(q, c, t));
    let mut sql = owned(RECIPE_SUMMARY_SELECT);
    if clauses.len() > 0 {
        sql.append(" WHERE ");
        let joined = join(&clauses, " AND ");
        sql.append(joined.as_str());
    }
    sql.append(" ORDER BY name");
    Statement { sql, params: values }
}

/// `',' || cell || ','`: a `NULL` cell stays `NULL`.
pub open spec fn wrap_cell(cell: Option<Seq<char>>) -> Option<Seq<char>> {
    match cell {
        Some(s) => Some(seq![','] + s + seq![',']),
        None => None,
    }
}

/// `x LIKE p ESCAPE '\'` as a condition: a `NULL` operand selects nothing.
pub open spec fn cell_like(p: Seq<char>, x: Option<Seq<char>>) -> bool {
    match x {
        Some(s) => like_match(p, s),
        None => false,
    }
}

/// Whether the search with terms `q`, `c` and `t` selects a cached recipe
/// whose `name`, `tags` and `categories` cells hold `name`, `tags` and
/// `categories`: what the `WHERE` clause of `search_sql` with the
/// parameters of `search_params` means, one conjunct per clause.
pub open spec fn search_selects(
    q: Option<Seq<char>>,
    c: Option<Seq<char>>,
    t: Option<Seq<char>>,
    name: Seq<char>,
    tags: Option<Seq<char>>,
    categories: Option<Seq<char>>,
) -> bool {
    &&& (q matches Some(x) ==> like_match(contains_pattern(x), name) || cell_like(
        contains_pattern(x),
        wrap_cell(tags),
    ) || cell_like(contains_pattern(x), wrap_cell(categories)))
    &&& (c matches Some(x) ==> cell_like(token_pattern_spec(x), wrap_cell(categories)))
    &&& (t matches Some(x) ==> cell_like(token_pattern_spec(x), wrap_cell(tags)))
}

/// `x LIKE p ESCAPE '\'` with `p` a bound parameter: a parameter that is
/// not text selects nothing here.
pub open spec fn param_like(p: SqlView, x: Option<Seq<char>>) -> bool {
    match p {
        SqlView::Text(pattern) => cell_like(pattern, x),
        _ => false,
    }
}

/// The number of parameters that a filter clause of the search binds.
pub open spec fn clause_arity(clause: Seq<char>) -> nat {
    if clause == QUERY_CLAUSE@ {
        3
    } else {
        1
    }
}

/// What one filter clause of the search selects, with `params` bound to
/// its placeholders in order: the text of the clause read as SQL.
pub open spec fn clause_selects(
    clause: Seq<char>,
    params: Seq<SqlView>,
    name: Seq<char>,
    tags: Option<Seq<char>>,
    categories: Option<Seq<char>>,
) -> bool {
    if clause == QUERY_CLAUSE@ {
        params.len() == 3 && (param_like(params[0], Some(name)) || param_like(params[1], wrap_cell(tags))
            || param_like(params[2], wrap_cell(categories)))
    } else if clause == CATEGORY_CLAUSE@ {
        params.len() == 1 && param_like(params[0], wrap_cell(categories))
    } else if clause == TAG_CLAUSE@ {
        params.len() == 1 && param_like(params[0], wrap_cell(tags))
    } else {
        false
    }
}

/// What a `WHERE` clause that joins `clauses` with `AND` selects, the
/// parameters bound to the clauses' placeholders in order; no clause
/// selects every row.
pub open spec fn where_selects(
    clauses: Seq<Seq<char>>,
    params: Seq<SqlView>,
    name: Seq<char>,
    tags: Option<Seq<char>>,
    categories: Option<Seq<char>>,
) -> bool
    decreases clauses.len(),
{
    if clauses.len() == 0 {
        params.len() == 0
    } else {
        let n = clause_arity(clauses[0]) as int;
        n <= params.len() && clause_selects(clauses[0], params.take(n), name, tags, categories)
            && where_selects(clauses.drop_first(), params.skip(n), name, tags, categories)
    }
}

proof fn lemma_clauses_differ()
    ensures
        QUERY_CLAUSE@ != CATEGORY_CLAUSE@,
        QUERY_CLAUSE@ != TAG_CLAUSE@,
        CATEGORY_CLAUSE@ != TAG_CLAUSE@,
{
    reveal_strlit("(name LIKE ? ESCAPE '\\' OR (',' || tags || ',') LIKE ? ESCAPE '\\' OR (',' || categories || ',') LIKE ? ESCAPE '\\')");
    reveal_strlit("(',' || categories || ',') LIKE ? ESCAPE '\\'");
    reveal_strlit("(',' || tags || ',') LIKE ? ESCAPE '\\'");
    assert(QUERY_CLAUSE@.len() != CATEGORY_CLAUSE@.len());
    assert(QUERY_CLAUSE@.len() != TAG_CLAUSE@.len());
    assert(CATEGORY_CLAUSE@.len() != TAG_CLAUSE@.len());
}

/// Law: the statement of a search selects what `search_selects` says:
/// its `WHERE` clause, read with its parameters, holds of a recipe exactly
/// when each of the search's filters selects it.
pub proof fn lemma_search_statement_selects(
    q: Option<Seq<char>>,
    c: Option<Seq<char>>,
    t: Option<Seq<char>>,
    name: Seq<char>,
    tags: Option<Seq<char>>,
    categories: Option<Seq<char>>,
)
    ensures
        where_selects(search_clauses(q, c, t), search_params(q, c, t), name, tags, categories)
            == search_selects(q, c, t, name, tags, categories),
{
    lemma_clauses_differ();
    let tc = search_clauses(None, None, t);
    let tp = search_params(None, None, t);
    let cc = search_clauses(None, c, t);
    let cp = search_params(None, c, t);
    let qc = search_clauses(q, c, t);
    let qp = search_params(q, c, t);
    let e: Seq<Seq<char>> = Seq::empty();
    let ep: Seq<SqlView> = Seq::empty();
    assert(where_selects(e, ep, name, tags, categories));
    match t {
        Some(x) => {
            assert(tc =~= seq![TAG_CLAUSE@]);
            assert(tp =~= seq![SqlView::Text(token_pattern_spec(x))]);
            assert(tc.drop_first() =~= e);
            assert(tp.take(1) =~= tp);
            assert(tp.skip(1) =~= ep);
        },
        None => {
            assert(tc =~= e);
            assert(tp =~= ep);
        },
    }
    assert(where_selects(tc, tp, name, tags, categories) == search_selects(None, None, t, name, tags, categories));
    match c {
        Some(x) => {
            assert(cc =~= seq![CATEGORY_CLAUSE@] + tc);
            assert(cp =~= seq![SqlView::Text(token_pattern_spec(x))] + tp);
            assert(cc.drop_first() =~= tc);
            assert(cp.take(1) =~= seq![SqlView::Text(token_pattern_spec(x))]);
            assert(cp.skip(1) =~= tp);
        },
        None => {
            assert(cc =~= tc);
            assert(cp =~= tp);
        },
    }
    assert(where_selects(cc, cp, name, tags, categories) == search_selects(None, c, t, name, tags, categories));
    match q {
        Some(x) => {
            let three = seq![
                SqlView::Text(contains_pattern(x)),
                SqlView::Text(contains_pattern(x)),
                SqlView::Text(contains_pattern(x)),
            ];
            assert(qc =~= seq![QUERY_CLAUSE@] + cc);
            assert(qp =~= three + cp);
            assert(qc.drop_first() =~= cc);
            assert(qp.take(3) =~= three);
            assert(qp.skip(3) =~= cp);
        },
        None => {
            assert(qc =~= cc);
            assert(qp =~= cp);
        },
    }
}

/// Law: a search with several filters selects exactly the recipes that
/// each of its filters selects alone; with no filter it selects every
/// recipe.
pub proof fn lemma_search_is_intersection(
    q: Option<Seq<char>>,
    c: Option<Seq<char>>,
    t: Option<Seq<char>>,
    name: Seq<char>,
    tags: Option<Seq<char>>,
    categories: Option<Seq<char>>,
)
    ensures
        search_selects(q, c, t, name, tags, categories) == (search_selects(q, None, None, name, tags, categories)
            && search_selects(None, c, None, name, tags, categories) && search_selects(
            None,
            None,
            t,
            name,
            tags,
            categories,
        )),
        search_selects(None, None, None, name, tags, categories),
{
}

/// Law: padding a filter with whitespace changes nothing, and a filter of
/// whitespace only is no filter.
pub proof fn lemma_filter_padding(pre: Seq<char>, s: Seq<char>, post: Seq<char>)
    requires
        forall|i: int| 0 <= i < pre.len() ==> is_ws(#[trigger] pre[i]),
        forall|i: int| 0 <= i < post.len() ==> is_ws(#[trigger] post[i]),
    ensures
        term_spec(pre + s + post) == term_spec(s),
        (forall|i: int| 0 <= i < s.len() ==> is_ws(#[trigger] s[i])) ==> term_spec(s) is None,
{
    lemma_trim_padding(pre, s, post);
    if forall|i: int| 0 <= i < s.len() ==> is_ws(#[trigger] s[i]) {
        lemma_trim_padding(s, Seq::empty(), Seq::empty());
        assert(s + Seq::<char>::empty() + Seq::<char>::empty() =~= s);
        assert(trim_spec(Seq::<char>::empty()).len() == 0);
    }
}

/// Law: the free-text filter selects a recipe exactly when its term
/// occurs, up to ASCII case, in the name or in the comma-wrapped tags or
/// categories; `%`, `_` and `\` in the term are plain characters.
pub proof fn lemma_query_selects(
    u: Seq<char>,
    name: Seq<char>,
    tags: Option<Seq<char>>,
    categories: Option<Seq<char>>,
)
    ensures
        search_selects(Some(u), None, None, name, tags, categories) == (contains_folded(name, u) || (match wrap_cell(tags) {
            Some(w) => contains_folded(w, u),
            None => false,
        }) || (match wrap_cell(categories) {
            Some(w) => contains_folded(w, u),
            None => false,
        })),
{
    lemma_contains_pattern(u, name);
    if let Some(w) = wrap_cell(tags) {
        lemma_contains_pattern(u, w);
    }
    if let Some(w) = wrap_cell(categories) {
        lemma_contains_pattern(u, w);
    }
}

/// Whether one of `items` equals `t` up to ASCII case.
pub open spec fn has_token(items: Seq<Seq<char>>, t: Seq<char>) -> bool {
    exists|i: int| 0 <= i < items.len() && #[trigger] same_folded(items[i], t)
}

/// Law: on a recipe whose tags were stored comma-joined, none holding a
/// comma, the tag filter with a non-empty, comma-free term selects it
/// exactly when one of its tags equals the term up to ASCII case: `ital`
/// does not select `italian`, and `_` selects no one-letter tag.
pub proof fn lemma_tag_selects(
    t: Seq<char>,
    items: Seq<Seq<char>>,
    name: Seq<char>,
    categories: Option<Seq<char>>,
)
    requires
        t.len() > 0,
        !t.contains(','),
        forall|i: int| 0 <= i < items.len() ==> !(#[trigger] items[i]).contains(','),
    ensures
        search_selects(None, None, Some(t), name, Some(join_spec(items, ","@)), categories) == has_token(
            items,
            t,
        ),
{
    lemma_comma_joined(items);
    lemma_token_pattern(t, items);
}

/// Law: on a recipe whose categories were stored comma-joined, none
/// holding a comma, the category filter with a non-empty, comma-free term
/// selects it exactly when one of its categories equals the term up to
/// ASCII case.
pub proof fn lemma_category_selects(
    c: Seq<char>,
    items: Seq<Seq<char>>,
    name: Seq<char>,
    tags: Option<Seq<char>>,
)
    requires
        c.len() > 0,
        !c.contains(','),
        forall|i: int| 0 <= i < items.len() ==> !(#[trigger] items[i]).contains(','),
    ensures
        search_selects(None, Some(c), None, name, tags, Some(join_spec(items, ","@))) == has_token(
            items,
            c,
        ),
{
    lemma_comma_joined(items);
    lemma_token_pattern(c, items);
}

proof fn lemma_comma_joined(items: Seq<Seq<char>>)
    ensures
        wrap_cell(Some(join_spec(items, ","@))) == Some(comma_wrapped(items)),
{
    reveal_strlit(",");
    assert(","@ =~= seq![',']);
}

/// A lightweight summary of a recipe, used for list/search views. Built
/// from the denormalized columns so the payload is not parsed just to
/// render a list.
#[derive(Debug, Clone, PartialEq)]
pub struct RecipeSummary {
    pub id: String,
    pub slug: Option<String>,
    pub name: String,
    pub description: Option<String>,
    pub image_path: Option<String>,
    pub tags: Vec<String>,
    pub categories: Vec<String>,
    pub marked_offline: bool,
}

/// A recipe whose thumbnail still needs to be pulled locally.
#[derive(Debug, Clone, PartialEq)]
pub struct ImageToFetch {
    pub id: String,
    pub remote_image: String,
}

/// Everything the sync engine needs to fully pull an offline-flagged
/// recipe: its id (for image caching) and server slug (for detail fetch).
#[derive(Debug, Clone, PartialEq)]
pub struct OfflineRecipeRef {
    pub id: String,
    pub slug: Option<String>,
    pub remote_image: Option<String>,
}

/// The text of cell `i`, when it holds text.
pub open spec fn text_at(row: Seq<SqlView>, i: int) -> Option<Seq<char>> {
    if 0 <= i < row.len() {
        match row[i] {
            SqlView::Text(s) => Some(s),
            _ => None,
        }
    } else {
        None
    }
}

/// The optional text of cell `i` (`NULL` reads as none), when it holds
/// text or `NULL`.
pub open spec fn opt_text_at(row: Seq<SqlView>, i: int) -> Option<Option<Seq<char>>> {
    if 0 <= i < row.len() {
        match row[i] {
            SqlView::Text(s) => Some(Some(s)),
            SqlView::Null => Some(None),
            _ => None,
        }
    } else {
        None
    }
}

/// The integer of cell `i`, when it holds one.
pub open spec fn int_at(row: Seq<SqlView>, i: int) -> Option<int> {
    if 0 <= i < row.len() {
        match row[i] {
            SqlView::Integer(v) => Some(v),
            _ => None,
        }
    } else {
        None
    }
}

/// The name of a cell's type in error messages.
pub open spec fn cell_type_label(v: SqlView) -> Seq<char> {
    match v {
        SqlView::Null => "Null"@,
        SqlView::Integer(_) => "Integer"@,
        SqlView::Text(_) => "Text"@,
        SqlView::Real => "Real"@,
        SqlView::Blob => "Blob"@,
    }
}

/// The error for reading cell `i`, of column `name`, as a type it does not
/// hold: the column's index and name and the cell's type, or that there is
/// no cell `i`.
pub open spec fn cell_error_spec(row: Seq<SqlView>, i: int, name: Seq<char>) -> Seq<char> {
    if 0 <= i < row.len() {
        "Invalid column type "@ + cell_type_label(row[i]) + " at index: "@ + crate::text::decimal(i as nat)
            + ", name: "@ + name
    } else {
        "Invalid column index: "@ + crate::text::decimal(i as nat)
    }
}

/// The name of a cell's type.
fn cell_type_label_of(v: &SqlValue) -> (r: &'static str)
    ensures
        r@ == cell_type_label(v@),
{
    match v {
        SqlValue::Null => "Null",
        SqlValue::Integer(_) => "Integer",
        SqlValue::Text(_) => "Text",
        SqlValue::Real => "Real",
        SqlValue::Blob => "Blob",
    }
}

/// The error for reading cell `i`, of column `name`, as a type it does
/// not hold.
fn cell_error(row: &Vec<SqlValue>, i: usize, name: &str) -> (r: String)
    ensures
        r@ == cell_error_spec(sql_views(row@), i as int, name@),
{
    if i < row.len() {
        let mut r = owned("Invalid column type ");
        r.append(cell_type_label_of(&row[i]));
        r.append(" at index: ");
        r.append(usize_to_string(i).as_str());
        r.append(", name: ");
        r.append(name);
        r
    } else {
        let mut r = owned("Invalid column index: ");
        r.append(usize_to_string(i).as_str());
        r
    }
}

/// The text of cell `i`, of column `name`.
pub fn read_text(row: &Vec<SqlValue>, i: usize, name: &str) -> (r: Result<String, String>)
    ensures
        match r {
            Ok(s) => text_at(sql_views(row@), i as int) == Some(s@),
            Err(e) => text_at(sql_views(row@), i as int) is None && e@ == cell_error_spec(
                sql_views(row@),
                i as int,
                name@,
            ),
        },
{
    if i < row.len() {
        match &row[i] {
            SqlValue::Text(s) => Ok(s.clone()),
            _ => Err(cell_error(row, i, name)),
        }
    } else {
        Err(cell_error(row, i, name))
    }
}

/// The optional text of cell `i`, of column `name`.
pub fn read_opt_text(row: &Vec<SqlValue>, i: usize, name: &str) -> (r: Result<Option<String>, String>)
    ensures
        match r {
            Ok(s) => opt_text_at(sql_views(row@), i as int) == Some(opt_view(s)),
            Err(e) => opt_text_at(sql_views(row@), i as int) is None && e@ == cell_error_spec(
                sql_views(row@),
                i as int,
                name@,
            ),
        },
{
    if i < row.len() {
        match &row[i] {
            SqlValue::Text(s) => Ok(Some(s.clone())),
            SqlValue::Null => Ok(None),
            _ => Err(cell_error(row, i, name)),
        }
    } else {
        Err(cell_error(row, i, name))
    }
}

/// The integer of cell `i`, of column `name`.
pub fn read_integer(row: &Vec<SqlValue>, i: usize, name: &str) -> (r: Result<i64, String>)
    ensures
        match r {
            Ok(v) => int_at(sql_views(row@), i as int) == Some(v as int),
            Err(e) => int_at(sql_views(row@), i as int) is None && e@ == cell_error_spec(
                sql_views(row@),
                i as int,
                name@,
            ),
        },
{
    if i < row.len() {
        match &row[i] {
            SqlValue::Integer(v) => Ok(*v),
            _ => Err(cell_error(row, i, name)),
        }
    } else {
        Err(cell_error(row, i, name))
    }
}

/// The comma-separated list stored in an optional cell: its non-empty
/// tokens, none for `NULL`.
pub open spec fn stored_list(cell: Option<Seq<char>>) -> Seq<Seq<char>> {
    match cell {
        Some(s) => tokens_spec(s, ','),
        None => Seq::empty(),
    }
}

/// How a decoder reads a cell.
pub enum CellKind {
    Text,
    OptText,
    Integer,
}

/// Whether cell `i` of `row` can be read as `kind`.
pub open spec fn cell_ok(row: Seq<SqlView>, i: int, kind: CellKind) -> bool {
    match kind {
        CellKind::Text => text_at(row, i) is Some,
        CellKind::OptText => opt_text_at(row, i) is Some,
        CellKind::Integer => int_at(row, i) is Some,
    }
}

/// The error of a decoder that reads the columns `columns` (how, and
/// under which name) from cell `i` on: that of the first cell that cannot
/// be read as its column says, none when every one can.
pub open spec fn decode_error(row: Seq<SqlView>, columns: Seq<(CellKind, Seq<char>)>, i: int) -> Option<
    Seq<char>,
>
    decreases columns.len() - i,
{
    if 0 <= i < columns.len() {
        if !cell_ok(row, i, columns[i].0) {
            Some(cell_error_spec(row, i, columns[i].1))
        } else {
            decode_error(row, columns, i + 1)
        }
    } else {
        None
    }
}

/// The columns of `RECIPE_SUMMARY_SELECT`.
pub open spec fn summary_columns() -> Seq<(CellKind, Seq<char>)> {
    seq![
        (CellKind::Text, "id"@),
        (CellKind::OptText, "slug"@),
        (CellKind::Text, "name"@),
        (CellKind::OptText, "description"@),
        (CellKind::OptText, "image_path"@),
        (CellKind::OptText, "tags"@),
        (CellKind::OptText, "categories"@),
        (CellKind::Integer, "marked_offline"@),
    ]
}

/// Whether a row of `RECIPE_SUMMARY_SELECT` holds cells of the expected
/// types.
pub open spec fn recipe_row_ok(row: Seq<SqlView>) -> bool {
    &&& text_at(row, 0) is Some
    &&& opt_text_at(row, 1) is Some
    &&& text_at(row, 2) is Some
    &&& opt_text_at(row, 3) is Some
    &&& opt_text_at(row, 4) is Some
    &&& opt_text_at(row, 5) is Some
    &&& opt_text_at(row, 6) is Some
    &&& int_at(row, 7) is Some
}

/// Reads a row of `RECIPE_SUMMARY_SELECT`: the tags and categories are
/// split back out of their comma-joined columns, and any non-zero flag
/// means the recipe is marked offline.
pub fn decode_recipe_summary(row: &Vec<SqlValue>) -> (r: Result<RecipeSummary, String>)
    ensures
        r is Ok <==> recipe_row_ok(sql_views(row@)),
        r matches Ok(x) ==> {
            let v = sql_views(row@);
            &&& text_at(v, 0) == Some(x.id@)
            &&& opt_text_at(v, 1) == Some(opt_view(x.slug))
            &&& text_at(v, 2) == Some(x.name@)
            &&& opt_text_at(v, 3) == Some(opt_view(x.description))
            &&& opt_text_at(v, 4) == Some(opt_view(x.image_path))
            &&& views(x.tags@) == stored_list(opt_text_at(v, 5).unwrap())
            &&& views(x.categories@) == stored_list(opt_text_at(v, 6).unwrap())
            &&& x.marked_offline == (int_at(v, 7).unwrap() != 0)
        },
        r matches Err(e) ==> decode_error(sql_views(row@), summary_columns(), 0) == Some(e@),
{
    proof {
        reveal_with_fuel(decode_error, 9);
    }
    let id = read_text(row, 0, "id")?;
    let slug = read_opt_text(row, 1, "slug")?;
    let name = read_text(row, 2, "name")?;
    let description = read_opt_text(row, 3, "description")?;
    let image_path = read_opt_text(row, 4, "image_path")?;
    let tags_raw = read_opt_text(row, 5, "tags")?;
    let categories_raw = read_opt_text(row, 6, "categories")?;
    let flag = read_integer(row, 7, "marked_offline")?;
    let tags = split_stored(&tags_raw);
    let categories = split_stored(&categories_raw);
    Ok(RecipeSummary { id, slug, name, description, image_path, tags, categories, marked_offline: flag != 0 })
}

/// The non-empty comma-separated tokens of an optional cell.
fn split_stored(cell: &Option<String>) -> (r: Vec<String>)
    ensures
        views(r@) == stored_list(opt_view(*cell)),
{
    match cell {
        Some(s) => tokens(s.as_str(), ','),
        None => {
            let v: Vec<String> = Vec::new();
            assert(views(v@) =~= Seq::<Seq<char>>::empty());
            v
        },
    }
}

/// The columns of `RECIPES_NEEDING_IMAGE_SQL`.
pub open spec fn image_to_fetch_columns() -> Seq<(CellKind, Seq<char>)> {
    seq![(CellKind::Text, "id"@), (CellKind::Text, "remote_image"@)]
}

/// Reads a row of `RECIPES_NEEDING_IMAGE_SQL`.
pub fn decode_image_to_fetch(row: &Vec<SqlValue>) -> (r: Result<ImageToFetch, String>)
    ensures
        r is Ok <==> (text_at(sql_views(row@), 0) is Some && text_at(sql_views(row@), 1) is Some),
        r matches Ok(x) ==> text_at(sql_views(row@), 0) == Some(x.id@) && text_at(
            sql_views(row@),
            1,
        ) == Some(x.remote_image@),
        r matches Err(e) ==> decode_error(sql_views(row@), image_to_fetch_columns(), 0) == Some(e@),
{
    proof {
        reveal_with_fuel(decode_error, 3);
    }
    let id = read_text(row, 0, "id")?;
    let remote_image = read_text(row, 1, "remote_image")?;
    Ok(ImageToFetch { id, remote_image })
}

/// The columns of `OFFLINE_RECIPES_SQL`.
pub open spec fn offline_ref_columns() -> Seq<(CellKind, Seq<char>)> {
    seq![(CellKind::Text, "id"@), (CellKind::OptText, "slug"@), (CellKind::OptText, "remote_image"@)]
}

/// Reads a row of `OFFLINE_RECIPES_SQL`.
pub fn decode_offline_ref(row: &Vec<SqlValue>) -> (r: Result<OfflineRecipeRef, String>)
    ensures
        r is Ok <==> (text_at(sql_views(row@), 0) is Some && opt_text_at(sql_views(row@), 1) is Some
            && opt_text_at(sql_views(row@), 2) is Some),
        r matches Ok(x) ==> text_at(sql_views(row@), 0) == Some(x.id@) && opt_text_at(
            sql_views(row@),
            1,
        ) == Some(opt_view(x.slug)) && opt_text_at(sql_views(row@), 2) == Some(
            opt_view(x.remote_image),
        ),
        r matches Err(e) ==> decode_error(sql_views(row@), offline_ref_columns(), 0) == Some(e@),
{
    proof {
        reveal_with_fuel(decode_error, 4);
    }
    let id = read_text(row, 0, "id")?;
    let slug = read_opt_text(row, 1, "slug")?;
    let remote_image = read_opt_text(row, 2, "remote_image")?;
    Ok(OfflineRecipeRef { id, slug, remote_image })
}

/// The columns of `SHOPPING_LISTS_SQL`.
pub open spec fn shopping_list_columns() -> Seq<(CellKind, Seq<char>)> {
    seq![(CellKind::Text, "id"@), (CellKind::Text, "name"@), (CellKind::Text, "raw_json"@)]
}

/// Reads a row of `SHOPPING_LISTS_SQL`: (id, name, payload).
pub fn decode_shopping_list_row(row: &Vec<SqlValue>) -> (r: Result<(String, String, String), String>)
    ensures
        r is Ok <==> (text_at(sql_views(row@), 0) is Some && text_at(sql_views(row@), 1) is Some
            && text_at(sql_views(row@), 2) is Some),
        r matches Ok(x) ==> text_at(sql_views(row@), 0) == Some(x.0@) && text_at(
            sql_views(row@),
            1,
        ) == Some(x.1@) && text_at(sql_views(row@), 2) == Some(x.2@),
        r matches Err(e) ==> decode_error(sql_views(row@), shopping_list_columns(), 0) == Some(e@),
{
    proof {
        reveal_with_fuel(decode_error, 4);
    }
    let id = read_text(row, 0, "id")?;
    let name = read_text(row, 1, "name")?;
    let raw = read_text(row, 2, "raw_json")?;
    Ok((id, name, raw))
}

/// Reads the text of the first cell, of column `column`, of the first row,
/// if there is a row (a lookup by key: no row means no value).
pub fn decode_single_text(rows: &Vec<Vec<SqlValue>>, column: &str) -> (r: Result<Option<String>, String>)
    ensures
        rows@.len() == 0 ==> r == Ok::<Option<String>, String>(None),
        rows@.len() > 0 ==> match r {
            Ok(Some(s)) => text_at(sql_views(rows@[0]@), 0) == Some(s@),
            Ok(None) => false,
            Err(e) => text_at(sql_views(rows@[0]@), 0) is None && e@ == cell_error_spec(
                sql_views(rows@[0]@),
                0,
                column@,
            ),
        },
{
    if rows.len() == 0 {
        return Ok(None);
    }
    let s = read_text(&rows[0], 0, column)?;
    Ok(Some(s))
}

/// Reads the optional text of the first cell, of column `column`, of the
/// first row: no row and `NULL` both read as none.
pub fn decode_single_opt_text(rows: &Vec<Vec<SqlValue>>, column: &str) -> (r: Result<Option<String>, String>)
    ensures
        rows@.len() == 0 ==> r == Ok::<Option<String>, String>(None),
        rows@.len() > 0 ==> match r {
            Ok(s) => opt_text_at(sql_views(rows@[0]@), 0) == Some(opt_view(s)),
            Err(e) => opt_text_at(sql_views(rows@[0]@), 0) is None && e@ == cell_error_spec(
                sql_views(rows@[0]@),
                0,
                column@,
            ),
        },
{
    if rows.len() == 0 {
        return Ok(None);
    }
    read_opt_text(&rows[0], 0, column)
}


/// Law: the tags (or categories) that an upsert stores comma-joined are
/// read back by a summary as the same tags, in order, leaving out empty
/// ones, provided no tag holds a comma.
pub proof fn lemma_stored_tags_roundtrip(tags: Seq<Seq<char>>)
    requires
        forall|i: int| 0 <= i < tags.len() ==> !(#[trigger] tags[i]).contains(','),
    ensures
        stored_list(Some(join_spec(tags, ","@))) == tags.filter(crate::text::non_empty_pred()),
{
    reveal_strlit(",");
    assert(","@ =~= seq![',']);
    crate::text::lemma_tokens_join(tags, ',');
}

/// The row of `RECIPE_SUMMARY_SELECT` under which a recipe upserted with
/// the parameters `params` is read back: its id, slug, name and
/// description, its cached image path and offline flag (which the upsert
/// leaves as they were), and its tags and categories cells as stored.
pub open spec fn upserted_summary_row(params: Seq<SqlView>, image_path: Option<Seq<char>>, offline_flag: int) -> Seq<
    SqlView,
> {
    seq![params[0], params[2], params[1], params[3], opt_text(image_path), params[6], params[7], SqlView::Integer(offline_flag)]
}

/// The list holds no empty item.
pub open spec fn no_empty_item(items: Seq<Seq<char>>) -> bool {
    forall|i: int| 0 <= i < items.len() ==> (#[trigger] items[i]).len() > 0
}

/// The list has no item that holds a comma.
pub open spec fn no_comma_item(items: Seq<Seq<char>>) -> bool {
    forall|i: int| 0 <= i < items.len() ==> !(#[trigger] items[i]).contains(',')
}

proof fn lemma_filter_keeps_all(items: Seq<Seq<char>>)
    requires
        no_empty_item(items),
    ensures
        items.filter(crate::text::non_empty_pred()) == items,
    decreases items.len(),
{
    reveal(Seq::filter);
    if items.len() > 0 {
        let init = items.drop_last();
        assert(no_empty_item(init)) by {
            assert forall|i: int| 0 <= i < init.len() implies (#[trigger] init[i]).len() > 0 by {
                assert(init[i] == items[i]);
            }
        }
        lemma_filter_keeps_all(init);
        assert(items[items.len() - 1].len() > 0);
        assert(init.push(items.last()) =~= items);
    }
}

/// Law: a recipe upserted into the cache is read back by a summary with
/// the same id, name, slug and description, and the same tags and
/// categories in the same order, when no tag or category is empty or
/// holds a comma; the row decodes whatever its image path and flag.
pub proof fn lemma_recipe_row_roundtrip(
    id: Seq<char>,
    name: Seq<char>,
    slug: Option<Seq<char>>,
    description: Option<Seq<char>>,
    remote_image: Option<Seq<char>>,
    raw_json: Seq<char>,
    tags: Seq<Seq<char>>,
    categories: Seq<Seq<char>>,
    synced_at: int,
    image_path: Option<Seq<char>>,
    offline_flag: int,
)
    requires
        no_empty_item(tags),
        no_comma_item(tags),
        no_empty_item(categories),
        no_comma_item(categories),
    ensures
        ({
            let row = upserted_summary_row(
                upsert_recipe_params(id, name, slug, description, remote_image, raw_json, tags, categories, synced_at),
                image_path,
                offline_flag,
            );
            &&& recipe_row_ok(row)
            &&& text_at(row, 0) == Some(id)
            &&& opt_text_at(row, 1) == Some(slug)
            &&& text_at(row, 2) == Some(name)
            &&& opt_text_at(row, 3) == Some(description)
            &&& opt_text_at(row, 4) == Some(image_path)
            &&& stored_list(opt_text_at(row, 5).unwrap()) == tags
            &&& stored_list(opt_text_at(row, 6).unwrap()) == categories
            &&& int_at(row, 7) == Some(offline_flag)
        }),
{
    lemma_stored_tags_roundtrip(tags);
    lemma_stored_tags_roundtrip(categories);
    lemma_filter_keeps_all(tags);
    lemma_filter_keeps_all(categories);
}

} // verus!

use rusqlite::types::{Value, ValueRef};
use rusqlite::Connection;
use rustymeals::like::{contains_pattern_of, like_escape, token_pattern_of};
use rustymeals::db::{
    add_column_if_missing, decode_image_to_fetch, decode_offline_ref, decode_recipe_summary,
    decode_shopping_list_row, decode_single_opt_text, decode_single_text,
    delete_shopping_lists_except_statement, get_sync_meta_statement, offline_recipes_statement,
    recipe_image_path_statement, recipe_raw_json_statement, recipe_search_statement,
    recipes_needing_image_statement, set_offline_statement, set_recipe_image_statement,
    set_sync_meta_statement, shopping_lists_statement, table_info_sql,
    update_recipe_payload_statement, upsert_recipe_statement, upsert_shopping_list_statement,
    ImageToFetch, OfflineRecipeRef, RecipeSummary, SqlValue, Statement, ADDED_RECIPE_COLUMNS,
    SCHEMA_SQL,
};

fn to_value(v: &SqlValue) -> Value {
    match v {
        SqlValue::Null => Value::Null,
        SqlValue::Integer(i) => Value::Integer(*i),
        SqlValue::Text(s) => Value::Text(s.clone()),
        SqlValue::Real | SqlValue::Blob => Value::Null,
    }
}

fn exec(conn: &Connection, st: &Statement) {
    conn.execute(&st.sql, rusqlite::params_from_iter(st.params.iter().map(to_value)))
        .unwrap();
}

fn query(conn: &Connection, st: &Statement) -> Vec<Vec<SqlValue>> {
    let mut stmt = conn.prepare(&st.sql).unwrap();
    let n = stmt.column_count();
    let mut rows = stmt
        .query(rusqlite::params_from_iter(st.params.iter().map(to_value)))
        .unwrap();
    let mut out = Vec::new();
    while let Some(row) = rows.next().unwrap() {
        let mut cells = Vec::new();
        for i in 0..n {
            cells.push(match row.get_ref(i).unwrap() {
                ValueRef::Null => SqlValue::Null,
                ValueRef::Integer(v) => SqlValue::Integer(v),
                ValueRef::Text(t) => SqlValue::Text(String::from_utf8(t.to_vec()).unwrap()),
                ValueRef::Real(_) => SqlValue::Real,
                ValueRef::Blob(_) => SqlValue::Blob,
            });
        }
        out.push(cells);
    }
    out
}

fn column_names(conn: &Connection, table: &str) -> Vec<Option<String>> {
    let st = Statement { sql: table_info_sql(table), params: Vec::new() };
    query(conn, &st)
        .into_iter()
        .map(|row| match row.get(1) {
            Some(SqlValue::Text(s)) => Some(s.clone()),
            _ => None,
        })
        .collect()
}

fn run_migrations(conn: &Connection) {
    conn.execute_batch(SCHEMA_SQL).unwrap();
    for (column, decl) in ADDED_RECIPE_COLUMNS {
        let names = column_names(conn, "recipes");
        if let Some(sql) = add_column_if_missing("recipes", column, decl, &names) {
            conn.execute_batch(&sql).unwrap();
        }
    }
}

fn test_conn() -> Connection {
    let conn = Connection::open_in_memory().unwrap();
    run_migrations(&conn);
    conn
}

#[allow(clippy::too_many_arguments)]
fn upsert_recipe_summary(
    conn: &Connection,
    id: &str,
    name: &str,
    slug: Option<&str>,
    description: Option<&str>,
    remote_image: Option<&str>,
    raw_json: &str,
    tags: &[String],
    categories: &[String],
    synced_at: i64,
) {
    let st = upsert_recipe_statement(
        id,
        name,
        slug,
        description,
        remote_image,
        raw_json,
        &tags.to_vec(),
        &categories.to_vec(),
        synced_at,
    );
    exec(conn, &st);
}

fn get_recipe_summaries(
    conn: &Connection,
    q: Option<&str>,
    c: Option<&str>,
    t: Option<&str>,
) -> Vec<RecipeSummary> {
    query(conn, &recipe_search_statement(q, c, t))
        .iter()
        .map(|row| decode_recipe_summary(row).unwrap())
        .collect()
}

fn set_offline_available(conn: &Connection, id: &str, offline: bool, image_path: Option<&str>) {
    exec(conn, &set_offline_statement(id, offline, image_path));
}

fn get_recipe_raw_json(conn: &Connection, id: &str) -> Option<String> {
    decode_single_text(&query(conn, &recipe_raw_json_statement(id)), "raw_json").unwrap()
}

fn get_recipe_image_path(conn: &Connection, id: &str) -> Option<String> {
    decode_single_opt_text(&query(conn, &recipe_image_path_statement(id)), "image_path").unwrap()
}

fn get_sync_meta(conn: &Connection, key: &str) -> Option<String> {
    decode_single_text(&query(conn, &get_sync_meta_statement(key)), "value").unwrap()
}

fn get_shopping_lists_raw(conn: &Connection) -> Vec<(String, String, String)> {
    query(conn, &shopping_lists_statement())
        .iter()
        .map(|row| decode_shopping_list_row(row).unwrap())
        .collect()
}

fn table_count(conn: &Connection, table: &str) -> i64 {
    conn.query_row(
        "SELECT count(*) FROM sqlite_master WHERE type='table' AND name=?1",
        [table],
        |row| row.get(0),
    )
    .unwrap()
}

#[test]
fn migration_creates_all_tables() {
    let conn = test_conn();
    for table in ["recipes", "shopping_lists", "sync_meta"] {
        assert_eq!(table_count(&conn, table), 1, "expected table {table} to exist");
    }
}

#[test]
fn migration_includes_slug_and_remote_image_columns() {
    let conn = test_conn();
    let columns: Vec<String> = column_names(&conn, "recipes").into_iter().flatten().collect();
    assert!(columns.contains(&"slug".to_string()));
    assert!(columns.contains(&"remote_image".to_string()));
}

#[test]
fn migration_alters_legacy_table_missing_new_columns() {
    let conn = Connection::open_in_memory().unwrap();
    conn.execute_batch(
        "CREATE TABLE recipes (
            id TEXT PRIMARY KEY,
            name TEXT NOT NULL,
            description TEXT,
            image_path TEXT,
            raw_json TEXT NOT NULL,
            tags TEXT,
            marked_offline INTEGER NOT NULL DEFAULT 0,
            last_synced_at INTEGER
        );",
    )
    .unwrap();
    run_migrations(&conn);
    let count: i64 = conn
        .query_row(
            "SELECT count(*) FROM pragma_table_info('recipes') WHERE name IN ('slug', 'remote_image')",
            [],
            |row| row.get(0),
        )
        .unwrap();
    assert_eq!(count, 2);
}

#[test]
fn migrations_run_twice_add_nothing_the_second_time() {
    let conn = test_conn();
    run_migrations(&conn);
    let names = column_names(&conn, "recipes");
    for (column, decl) in ADDED_RECIPE_COLUMNS {
        assert_eq!(add_column_if_missing("recipes", column, decl, &names), None);
    }
    assert_eq!(
        add_column_if_missing("recipes", "extra", "TEXT", &names),
        Some("ALTER TABLE recipes ADD COLUMN extra TEXT;".to_string())
    );
}

#[test]
fn upsert_and_fetch_recipe_summary() {
    let conn = test_conn();
    upsert_recipe_summary(
        &conn,
        "r1",
        "Pasta Carbonara",
        Some("pasta-carbonara"),
        Some("Classic Roman pasta"),
        Some("original.webp"),
        r#"{"id":"r1"}"#,
        &["italian".to_string(), "pasta".to_string()],
        &["main".to_string()],
        1000,
    );

    let all = get_recipe_summaries(&conn, None, None, None);
    assert_eq!(all.len(), 1);
    assert_eq!(all[0].name, "Pasta Carbonara");
    assert_eq!(all[0].tags, vec!["italian", "pasta"]);
    assert_eq!(all[0].categories, vec!["main"]);
    assert_eq!(all[0].slug.as_deref(), Some("pasta-carbonara"));
    assert!(!all[0].marked_offline);

    let slug: String = conn
        .query_row("SELECT slug FROM recipes WHERE id='r1'", [], |r| r.get(0))
        .unwrap();
    assert_eq!(slug, "pasta-carbonara");
}

#[test]
fn search_filters_by_name_and_tags_and_categories() {
    let conn = test_conn();
    upsert_recipe_summary(
        &conn,
        "r1",
        "Pasta Carbonara",
        Some("pasta-carbonara"),
        None,
        None,
        "{}",
        &["italian".into()],
        &["main".into()],
        1000,
    );
    upsert_recipe_summary(
        &conn,
        "r2",
        "Chicken Curry",
        Some("chicken-curry"),
        None,
        None,
        "{}",
        &["indian".into()],
        &["main".into()],
        1000,
    );
    upsert_recipe_summary(
        &conn,
        "r3",
        "Caesar Salad",
        Some("caesar-salad"),
        None,
        None,
        "{}",
        &[],
        &["side".into()],
        1000,
    );

    let by_name = get_recipe_summaries(&conn, Some("pasta"), None, None);
    assert_eq!(by_name.len(), 1);
    assert_eq!(by_name[0].id, "r1");

    let by_tag = get_recipe_summaries(&conn, Some("indian"), None, None);
    assert_eq!(by_tag.len(), 1);
    assert_eq!(by_tag[0].id, "r2");

    let by_category = get_recipe_summaries(&conn, None, Some("main"), None);
    assert_eq!(by_category.len(), 2);

    let by_tag_exact = get_recipe_summaries(&conn, None, None, Some("italian"));
    assert_eq!(by_tag_exact.len(), 1);

    let by_tag_exact = get_recipe_summaries(&conn, None, None, Some("ardi"));
    assert!(by_tag_exact.is_empty());
}

#[test]
fn category_filter_matches_whole_tokens_only() {
    let conn = test_conn();
    upsert_recipe_summary(
        &conn,
        "r1",
        "Soup",
        None,
        None,
        None,
        "{}",
        &[],
        &["main course".into()],
        1000,
    );
    upsert_recipe_summary(&conn, "r2", "Stew", None, None, None, "{}", &[], &["main".into()], 1000);
    let hits = get_recipe_summaries(&conn, None, Some("main"), None);
    assert_eq!(hits.len(), 1);
    assert_eq!(hits[0].id, "r2");
    let hits = get_recipe_summaries(&conn, None, Some("  main course "), None);
    assert_eq!(hits.len(), 1);
    assert_eq!(hits[0].id, "r1");
    let all = get_recipe_summaries(&conn, Some("   "), Some(""), None);
    assert_eq!(all.len(), 2);
    assert_eq!(all[0].name, "Soup");
    assert_eq!(all[1].name, "Stew");
}

#[test]
fn set_offline_available_toggles_flag_without_metadata_sync_undoing_it() {
    let conn = test_conn();
    upsert_recipe_summary(
        &conn,
        "r1",
        "Pasta Carbonara",
        Some("pasta-carbonara"),
        None,
        None,
        "{}",
        &[],
        &[],
        1000,
    );

    set_offline_available(&conn, "r1", true, Some("/images/r1.jpg"));
    let all = get_recipe_summaries(&conn, None, None, None);
    assert!(all[0].marked_offline);
    assert_eq!(all[0].image_path.as_deref(), Some("/images/r1.jpg"));

    upsert_recipe_summary(
        &conn,
        "r1",
        "Pasta Carbonara",
        Some("pasta-carbonara"),
        None,
        None,
        "{}",
        &[],
        &[],
        2000,
    );
    let all = get_recipe_summaries(&conn, None, None, None);
    assert!(
        all[0].marked_offline,
        "metadata sync must not unset marked_offline"
    );
}

#[test]
fn offline_recipe_refs_returns_only_flagged_recipes() {
    let conn = test_conn();
    upsert_recipe_summary(
        &conn,
        "r1",
        "A",
        Some("a"),
        None,
        Some("original.webp"),
        "{}",
        &[],
        &[],
        1000,
    );
    upsert_recipe_summary(&conn, "r2", "B", Some("b"), None, None, "{}", &[], &[], 1000);
    set_offline_available(&conn, "r2", true, None);

    let refs: Vec<OfflineRecipeRef> = query(&conn, &offline_recipes_statement())
        .iter()
        .map(|row| decode_offline_ref(row).unwrap())
        .collect();
    assert_eq!(
        refs,
        vec![OfflineRecipeRef {
            id: "r2".to_string(),
            slug: Some("b".to_string()),
            remote_image: None,
        }]
    );
}

#[test]
fn update_recipe_payload_replaces_placeholder_and_keeps_flag() {
    let conn = test_conn();
    upsert_recipe_summary(
        &conn,
        "r1",
        "A",
        Some("a"),
        None,
        Some("original.webp"),
        "{}",
        &[],
        &[],
        1000,
    );
    set_offline_available(&conn, "r1", true, None);

    exec(
        &conn,
        &update_recipe_payload_statement(
            "r1",
            r#"{"id":"r1","name":"A","recipeInstructions":[]}"#,
            Some("/images/r1.webp"),
            5000,
        ),
    );

    let raw = get_recipe_raw_json(&conn, "r1").unwrap();
    assert!(raw.contains("recipeInstructions"));
    let summary = &get_recipe_summaries(&conn, None, None, None)[0];
    assert!(summary.marked_offline);
    assert_eq!(summary.image_path.as_deref(), Some("/images/r1.webp"));
}

#[test]
fn recipes_needing_image_returns_only_missing_thumbnails() {
    let conn = test_conn();
    upsert_recipe_summary(
        &conn,
        "r1",
        "A",
        Some("a"),
        None,
        Some("original.webp"),
        "{}",
        &[],
        &[],
        1000,
    );
    upsert_recipe_summary(
        &conn,
        "r2",
        "B",
        Some("b"),
        None,
        Some("original.webp"),
        "{}",
        &[],
        &[],
        1000,
    );
    exec(&conn, &set_recipe_image_statement("r2", "/images/r2.webp"));

    let needing: Vec<ImageToFetch> = query(&conn, &recipes_needing_image_statement())
        .iter()
        .map(|row| decode_image_to_fetch(row).unwrap())
        .collect();
    assert_eq!(needing.len(), 1);
    assert_eq!(
        needing[0],
        ImageToFetch {
            id: "r1".to_string(),
            remote_image: "original.webp".to_string(),
        }
    );

    assert_eq!(get_recipe_image_path(&conn, "r1"), None);
    assert_eq!(
        get_recipe_image_path(&conn, "r2"),
        Some("/images/r2.webp".to_string())
    );
}

#[test]
fn sync_meta_roundtrip() {
    let conn = test_conn();
    assert_eq!(get_sync_meta(&conn, "last_sync"), None);
    exec(&conn, &set_sync_meta_statement("last_sync", "12345"));
    assert_eq!(get_sync_meta(&conn, "last_sync"), Some("12345".to_string()));
    exec(&conn, &set_sync_meta_statement("last_sync", "67890"));
    assert_eq!(get_sync_meta(&conn, "last_sync"), Some("67890".to_string()));
}

#[test]
fn shopping_lists_roundtrip_and_prune() {
    let conn = test_conn();
    assert!(get_shopping_lists_raw(&conn).is_empty());

    exec(&conn, &upsert_shopping_list_statement("a", "Alpha", r#"{"id":"a","listItems":[]}"#, 1000));
    exec(&conn, &upsert_shopping_list_statement("b", "Beta", r#"{"id":"b","listItems":[]}"#, 1000));
    exec(&conn, &upsert_shopping_list_statement("a", "Alpha 2", r#"{"id":"a","listItems":[]}"#, 2000));

    let rows = get_shopping_lists_raw(&conn);
    assert_eq!(rows.len(), 2);
    assert_eq!(rows[0].0, "a");
    assert_eq!(rows[0].1, "Alpha 2");
    assert_eq!(rows[1].0, "b");

    exec(&conn, &delete_shopping_lists_except_statement(&vec!["a".to_string()]));
    let rows = get_shopping_lists_raw(&conn);
    assert_eq!(rows.len(), 1);
    assert_eq!(rows[0].0, "a");

    exec(&conn, &delete_shopping_lists_except_statement(&vec![]));
    assert!(get_shopping_lists_raw(&conn).is_empty());
}

#[test]
fn delete_statement_has_one_placeholder_per_kept_id() {
    let st = delete_shopping_lists_except_statement(&vec!["a".to_string(), "b".to_string(), "c".to_string()]);
    assert_eq!(st.sql, "DELETE FROM shopping_lists WHERE id NOT IN (?,?,?)");
    assert_eq!(
        st.params,
        vec![
            SqlValue::Text("a".to_string()),
            SqlValue::Text("b".to_string()),
            SqlValue::Text("c".to_string())
        ]
    );
    let st = delete_shopping_lists_except_statement(&vec![]);
    assert_eq!(st.sql, "DELETE FROM shopping_lists");
    assert!(st.params.is_empty());
}

#[test]
fn search_statement_trims_terms_and_joins_clauses() {
    let st = recipe_search_statement(Some("  pasta "), None, Some("italian"));
    assert_eq!(
        st.sql,
        "SELECT id, slug, name, description, image_path, tags, categories, marked_offline FROM recipes WHERE (name LIKE ? ESCAPE '\\' OR (',' || tags || ',') LIKE ? ESCAPE '\\' OR (',' || categories || ',') LIKE ? ESCAPE '\\') AND (',' || tags || ',') LIKE ? ESCAPE '\\' ORDER BY name"
    );
    assert_eq!(
        st.params,
        vec![
            SqlValue::Text("%pasta%".to_string()),
            SqlValue::Text("%pasta%".to_string()),
            SqlValue::Text("%pasta%".to_string()),
            SqlValue::Text("%,italian,%".to_string())
        ]
    );
    let st = recipe_search_statement(None, Some(" "), None);
    assert_eq!(
        st.sql,
        "SELECT id, slug, name, description, image_path, tags, categories, marked_offline FROM recipes ORDER BY name"
    );
    assert!(st.params.is_empty());
}

#[test]
fn decoding_rejects_cells_of_the_wrong_type() {
    let row = vec![
        SqlValue::Text("r1".to_string()),
        SqlValue::Null,
        SqlValue::Null,
        SqlValue::Null,
        SqlValue::Null,
        SqlValue::Null,
        SqlValue::Null,
        SqlValue::Integer(0),
    ];
    assert_eq!(
        decode_recipe_summary(&row),
        Err("Invalid column type Null at index: 2, name: name".to_string())
    );
    let row = vec![
        SqlValue::Text("r1".to_string()),
        SqlValue::Null,
        SqlValue::Text("A".to_string()),
        SqlValue::Null,
        SqlValue::Null,
        SqlValue::Text(",x,,y".to_string()),
        SqlValue::Null,
        SqlValue::Integer(7),
    ];
    let s = decode_recipe_summary(&row).unwrap();
    assert_eq!(s.tags, vec!["x", "y"]);
    assert!(s.categories.is_empty());
    assert!(s.marked_offline);
    assert_eq!(decode_single_text(&vec![], "value"), Ok(None));
    assert_eq!(
        decode_single_text(&vec![vec![SqlValue::Null]], "value"),
        Err("Invalid column type Null at index: 0, name: value".to_string())
    );
    assert_eq!(decode_single_opt_text(&vec![vec![SqlValue::Null]], "image_path"), Ok(None));
    assert_eq!(
        decode_single_opt_text(&vec![vec![]], "image_path"),
        Err("Invalid column index: 0".to_string())
    );
    assert_eq!(
        decode_image_to_fetch(&vec![SqlValue::Text("r".to_string())]),
        Err("Invalid column index: 1".to_string())
    );
    assert_eq!(
        decode_shopping_list_row(&vec![
            SqlValue::Text("l".to_string()),
            SqlValue::Integer(3),
            SqlValue::Blob
        ]),
        Err("Invalid column type Integer at index: 1, name: name".to_string())
    );
    assert_eq!(
        decode_offline_ref(&vec![
            SqlValue::Text("r".to_string()),
            SqlValue::Null,
            SqlValue::Real
        ]),
        Err("Invalid column type Real at index: 2, name: remote_image".to_string())
    );
}

#[test]
fn upsert_statement_stores_tags_comma_joined() {
    let st = upsert_recipe_statement(
        "r1",
        "A",
        None,
        Some("d"),
        None,
        "{}",
        &vec!["a".to_string(), "b".to_string()],
        &vec![],
        42,
    );
    assert_eq!(
        st.params,
        vec![
            SqlValue::Text("r1".to_string()),
            SqlValue::Text("A".to_string()),
            SqlValue::Null,
            SqlValue::Text("d".to_string()),
            SqlValue::Null,
            SqlValue::Text("{}".to_string()),
            SqlValue::Text("a,b".to_string()),
            SqlValue::Text("".to_string()),
            SqlValue::Integer(42)
        ]
    );
}

#[test]
fn search_terms_are_literal_not_wildcards() {
    let conn = test_conn();
    upsert_recipe_summary(&conn, "r1", "Pasta", None, None, None, "{}", &["x".into()], &[], 1000);
    upsert_recipe_summary(&conn, "r2", "100% Rye", None, None, None, "{}", &[], &["a_b".into()], 1000);
    upsert_recipe_summary(&conn, "r3", "Back\\slash", None, None, None, "{}", &[], &[], 1000);
    let hits = get_recipe_summaries(&conn, Some("_"), None, None);
    assert_eq!(hits.len(), 1);
    assert_eq!(hits[0].id, "r2");
    let hits = get_recipe_summaries(&conn, Some("%"), None, None);
    assert_eq!(hits.len(), 1);
    assert_eq!(hits[0].id, "r2");
    let hits = get_recipe_summaries(&conn, Some("\\"), None, None);
    assert_eq!(hits.len(), 1);
    assert_eq!(hits[0].id, "r3");
    assert!(get_recipe_summaries(&conn, None, None, Some("_")).is_empty());
    assert!(get_recipe_summaries(&conn, None, Some("a%"), None).is_empty());
    let hits = get_recipe_summaries(&conn, None, Some("A_B"), None);
    assert_eq!(hits.len(), 1);
    assert_eq!(hits[0].id, "r2");
    let st = recipe_search_statement(Some(" 5%_\\ "), None, Some("a_b"));
    assert_eq!(st.params[0], SqlValue::Text("%5\\%\\_\\\\%".to_string()));
    assert_eq!(st.params[3], SqlValue::Text("%,a\\_b,%".to_string()));
}

#[test]
fn search_with_several_filters_is_the_intersection() {
    let conn = test_conn();
    upsert_recipe_summary(&conn, "r1", "Pasta", None, None, None, "{}", &["italian".into()], &["main".into()], 1);
    upsert_recipe_summary(&conn, "r2", "Pizza", None, None, None, "{}", &["italian".into()], &["side".into()], 1);
    upsert_recipe_summary(&conn, "r3", "Pasta Salad", None, None, None, "{}", &["cold".into()], &["main".into()], 1);
    let ids = |v: Vec<RecipeSummary>| v.into_iter().map(|r| r.id).collect::<Vec<_>>();
    assert_eq!(ids(get_recipe_summaries(&conn, Some("pasta"), None, None)), vec!["r1", "r3"]);
    assert_eq!(ids(get_recipe_summaries(&conn, None, Some("main"), None)), vec!["r1", "r3"]);
    assert_eq!(ids(get_recipe_summaries(&conn, None, None, Some("ITALIAN"))), vec!["r1", "r2"]);
    assert_eq!(ids(get_recipe_summaries(&conn, Some("pasta"), Some("main"), Some("italian"))), vec!["r1"]);
    assert_eq!(
        ids(get_recipe_summaries(&conn, Some("  pasta "), Some(" main"), Some("italian\t"))),
        vec!["r1"]
    );
    assert_eq!(ids(get_recipe_summaries(&conn, None, None, None)), vec!["r1", "r3", "r2"]);
}

#[test]
fn upserted_recipe_reads_back_whole() {
    let conn = test_conn();
    upsert_recipe_summary(
        &conn,
        "r1",
        "Pasta",
        Some("pasta"),
        Some("Good"),
        Some("img.webp"),
        "{}",
        &["b".into(), "a".into(), "b".into()],
        &["main course".into()],
        5,
    );
    let all = get_recipe_summaries(&conn, None, None, None);
    assert_eq!(all.len(), 1);
    let r = &all[0];
    assert_eq!(r.id, "r1");
    assert_eq!(r.name, "Pasta");
    assert_eq!(r.slug.as_deref(), Some("pasta"));
    assert_eq!(r.description.as_deref(), Some("Good"));
    assert_eq!(r.image_path, None);
    assert_eq!(r.tags, vec!["b", "a", "b"]);
    assert_eq!(r.categories, vec!["main course"]);
    assert!(!r.marked_offline);
}

#[test]
fn like_patterns_escape_wildcards() {
    assert_eq!(like_escape("plain text"), "plain text");
    assert_eq!(like_escape("50%_off\\"), "50\\%\\_off\\\\");
    assert_eq!(contains_pattern_of("a_b"), "%a\\_b%");
    assert_eq!(token_pattern_of("main"), "%,main,%");
    assert_eq!(token_pattern_of("%"), "%,\\%,%");
}

use rustymeals::api::{
    MealieRecipeSummary, MealieShoppingList, MealieShoppingListItem, MealieShoppingListSummary,
    MealieTag,
};
use rustymeals::commands::{
    batch_is_full, checked_item_ids, connect_progress, done_progress, image_file_name,
    indexing_progress, list_display_name, needs_image, recipe_upsert_from_summary,
    recipes_ready_progress, refresh_target, reported_list_ids, shopping_list_from_cache,
    sort_items, sync_meta_entries, sync_report, sync_status_from_meta, unix_now, unix_seconds,
    DetailAction, DetailEvent, DetailPass, DetailTally, ImageTally, ListOutcome, ListRefresh, ShoppingListItem, SyncStatus,
};
use rustymeals::db::{SqlValue, UPSERT_RECIPE_SQL};
use rustymeals::state::{require_credentials, Credentials};

fn item(id: Option<&str>, display: Option<&str>, checked: bool, position: i64) -> MealieShoppingListItem {
    MealieShoppingListItem {
        id: id.map(String::from),
        display: display.map(String::from),
        note: None,
        checked,
        position,
    }
}

fn ui(id: &str, display: &str, position: i64) -> ShoppingListItem {
    ShoppingListItem {
        id: id.to_string(),
        display: display.to_string(),
        note: None,
        checked: false,
        position,
    }
}

#[test]
fn cached_list_drops_items_without_id_and_sorts_by_position_then_display() {
    let detail = MealieShoppingList {
        id: Some("list-1".to_string()),
        name: Some("Shopping list".to_string()),
        list_items: vec![
            item(Some("i1"), Some("milk"), false, 2),
            item(None, Some("ghost"), false, 0),
            item(Some("i2"), Some("eggs"), true, 1),
            item(Some("i3"), None, false, 2),
            item(Some("i4"), Some("bread"), false, 2),
        ],
    };
    let list = shopping_list_from_cache("list-1", "Groceries", Some(detail));
    assert_eq!(list.id, "list-1");
    assert_eq!(list.name, "Groceries");
    let ids: Vec<&str> = list.items.iter().map(|i| i.id.as_str()).collect();
    assert_eq!(ids, vec!["i2", "i3", "i4", "i1"]);
    assert_eq!(list.items[1].display, "");
    assert!(list.items[0].checked);
}

#[test]
fn unreadable_cached_list_shows_as_empty() {
    let list = shopping_list_from_cache("a", "Alpha", None);
    assert_eq!(list.id, "a");
    assert_eq!(list.name, "Alpha");
    assert!(list.items.is_empty());
}

#[test]
fn sort_is_stable_for_equal_keys() {
    let sorted = sort_items(vec![ui("x", "milk", 1), ui("a", "eggs", 0), ui("y", "milk", 1), ui("z", "milk", 0)]);
    let ids: Vec<&str> = sorted.iter().map(|i| i.id.as_str()).collect();
    assert_eq!(ids, vec!["a", "z", "x", "y"]);
}

#[test]
fn display_name_falls_back_to_the_id() {
    assert_eq!(list_display_name(&Some("Weekly".to_string()), "l1"), "Weekly");
    assert_eq!(list_display_name(&Some("   ".to_string()), "l1"), "l1");
    assert_eq!(list_display_name(&None, "l1"), "l1");
}

#[test]
fn checked_ids_keep_only_checked_items_with_ids() {
    let list = MealieShoppingList {
        id: None,
        name: None,
        list_items: vec![
            item(Some("a"), None, true, 0),
            item(Some("b"), None, false, 0),
            item(None, None, true, 0),
            item(Some("c"), None, true, 0),
        ],
    };
    assert_eq!(checked_item_ids(&list), vec!["a".to_string(), "c".to_string()]);
}

#[test]
fn refresh_targets_and_kept_ids() {
    let summaries = vec![
        MealieShoppingListSummary { id: Some("l1".to_string()), name: Some("One".to_string()) },
        MealieShoppingListSummary { id: Some("".to_string()), name: Some("Empty".to_string()) },
        MealieShoppingListSummary { id: None, name: Some("None".to_string()) },
        MealieShoppingListSummary { id: Some("l2".to_string()), name: Some(" ".to_string()) },
    ];
    let t = refresh_target(&summaries[0]).unwrap();
    assert_eq!((t.id.as_str(), t.name.as_str()), ("l1", "One"));
    assert!(refresh_target(&summaries[1]).is_none());
    assert!(refresh_target(&summaries[2]).is_none());
    let t = refresh_target(&summaries[3]).unwrap();
    assert_eq!((t.id.as_str(), t.name.as_str()), ("l2", "l2"));
    assert_eq!(
        reported_list_ids(&summaries),
        vec!["l1".to_string(), "".to_string(), "l2".to_string()]
    );
}

#[test]
fn refresh_tally_counts_items_and_errors() {
    let mut run = ListRefresh::new(4);
    run.record(ListOutcome::Cached(3));
    run.record(ListOutcome::Invalid);
    run.record(ListOutcome::FetchFailed);
    assert!(!run.is_done());
    assert!(run.can_add_items(2));
    run.record(ListOutcome::Cached(2));
    assert!(run.is_done());
    let report = run.report();
    assert_eq!((report.lists, report.items, report.errors), (4, 5, 2));
}

#[test]
fn metadata_pass_skips_recipes_without_id_or_name() {
    let summary = MealieRecipeSummary {
        id: Some("r1".to_string()),
        name: Some("Pasta".to_string()),
        slug: Some("pasta".to_string()),
        description: None,
        image: Some("original.webp".to_string()),
        tags: Some(vec![MealieTag { name: "italian".to_string() }, MealieTag { name: "quick".to_string() }]),
        categories: None,
    };
    let st = recipe_upsert_from_summary(&summary, 1000).unwrap();
    assert_eq!(st.sql, UPSERT_RECIPE_SQL);
    assert_eq!(
        st.params,
        vec![
            SqlValue::Text("r1".to_string()),
            SqlValue::Text("Pasta".to_string()),
            SqlValue::Text("pasta".to_string()),
            SqlValue::Null,
            SqlValue::Text("original.webp".to_string()),
            SqlValue::Text("{}".to_string()),
            SqlValue::Text("italian,quick".to_string()),
            SqlValue::Text("".to_string()),
            SqlValue::Integer(1000)
        ]
    );
    let mut nameless = summary.clone();
    nameless.name = None;
    assert!(recipe_upsert_from_summary(&nameless, 1000).is_none());
}

#[test]
fn indexing_progress_every_tenth_recipe_and_the_ends() {
    let reported: Vec<usize> = (0..25).filter(|i| indexing_progress(*i, 25).is_some()).collect();
    assert_eq!(reported, vec![0, 10, 20, 24]);
    let p = indexing_progress(10, 25).unwrap();
    assert_eq!(p.phase, "recipes");
    assert_eq!((p.processed, p.total), (11, 25));
    assert_eq!(p.message, "Indexing recipes… 11 of 25");
    assert_eq!(recipes_ready_progress(25).message, "Recipe list ready");
    assert_eq!(connect_progress().message, "Connecting to server…");
    assert_eq!(done_progress().phase, "done");
}

#[test]
fn image_tally_and_report() {
    let mut images = ImageTally::new(3);
    let p = images.record(true);
    assert_eq!(p.message, "Downloading thumbnail 1 of 3…");
    images.record(false);
    images.record(true);
    let done = images.finish().unwrap();
    assert_eq!((done.processed, done.total), (3, 3));
    assert_eq!(done.message, "Thumbnails ready");
    assert!(ImageTally::new(0).finish().is_none());
    assert!(!batch_is_full(3));
    assert!(batch_is_full(4));

    let mut details = DetailTally::new(3);
    assert!(details.start(false).is_none());
    let p = details.start(true).unwrap();
    assert_eq!(p.message, "Pulling offline recipe 1 of 3…");
    details.finish(true);
    details.start(true);
    details.finish(false);
    assert!(details.is_done());

    let report = sync_report(40, &images, &details, 99);
    assert_eq!(report.total_recipes, 40);
    assert_eq!(report.images_downloaded, 2);
    assert_eq!(report.details_synced, 1);
    assert_eq!(report.errors, 2);
    assert_eq!(report.finished_at, 99);
    assert!(needs_image(&None));
    assert!(!needs_image(&Some("/x.webp".to_string())));
}

#[test]
fn sync_status_reads_back_what_a_sync_records() {
    let entries = sync_meta_entries(1_700_000_000, 250, "https://meals.example");
    assert_eq!(
        entries,
        vec![
            ("last_sync_at".to_string(), "1700000000".to_string()),
            ("last_sync_count".to_string(), "250".to_string()),
            ("server_url".to_string(), "https://meals.example".to_string())
        ]
    );
    let status = sync_status_from_meta(
        Some(entries[0].1.clone()),
        Some(entries[1].1.clone()),
        Some(entries[2].1.clone()),
    );
    assert_eq!(
        status,
        SyncStatus {
            last_sync_at: Some(1_700_000_000),
            last_sync_count: Some(250),
            server_url: Some("https://meals.example".to_string())
        }
    );
    let status = sync_status_from_meta(Some("soon".to_string()), None, None);
    assert_eq!(status.last_sync_at, None);
    assert_eq!(status.last_sync_count, None);
    assert_eq!(status.server_url, None);
}

#[test]
fn image_file_names_keep_the_extension() {
    assert_eq!(image_file_name("r1", "min-original.webp"), "r1.webp");
    assert_eq!(image_file_name("r1", "photo.v2.jpg"), "r1.jpg");
    assert_eq!(image_file_name("r1", "noext"), "r1.webp");
    assert_eq!(image_file_name("r1", "trailing."), "r1.webp");
}

#[test]
fn unix_seconds_wraps_like_as() {
    assert_eq!(unix_seconds(None), 0);
    assert_eq!(unix_seconds(Some(1_700_000_000)), 1_700_000_000);
    assert_eq!(unix_seconds(Some(u64::MAX)), u64::MAX as i64);
    assert!(unix_now() > 1_600_000_000);
}

#[test]
fn credentials_are_required() {
    match require_credentials(&None) {
        Err(err) => assert_eq!(err, "Not connected — set the server URL and token in Settings"),
        Ok(_) => panic!("credentials were never set"),
    }
    let c = Credentials { base_url: "https://m".to_string(), token: "t".to_string() };
    let got = match require_credentials(&Some(c)) {
        Ok(got) => got,
        Err(e) => panic!("{e}"),
    };
    assert_eq!((got.base_url.as_str(), got.token.as_str()), ("https://m", "t"));
    let d = Credentials::default();
    assert!(d.base_url.is_empty() && d.token.is_empty());
}

#[test]
fn detail_pass_orders_the_work_of_each_offline_recipe() {
    let (mut pass, action) = DetailPass::new(vec![false, true, true, false, true]);
    match action {
        DetailAction::Fetch { index, progress } => {
            assert_eq!(index, 1);
            assert_eq!(progress.phase, "details");
            assert_eq!((progress.processed, progress.total), (1, 5));
            assert_eq!(progress.message, "Pulling offline recipe 1 of 5…");
        }
        other => panic!("unexpected {:?}", other),
    }
    assert!(pass.expects(DetailEvent::Fetched(true)));
    assert!(!pass.expects(DetailEvent::Saved(true)));
    assert_eq!(pass.step(DetailEvent::Fetched(true)), DetailAction::ReadImagePath { index: 1 });
    assert_eq!(pass.step(DetailEvent::ImagePathRead(false)), DetailAction::DownloadImage { index: 1 });
    assert_eq!(pass.step(DetailEvent::ImageAttempted), DetailAction::SavePayload { index: 1 });
    match pass.step(DetailEvent::Saved(true)) {
        DetailAction::Fetch { index, progress } => {
            assert_eq!(index, 2);
            assert_eq!(progress.message, "Pulling offline recipe 2 of 5…");
        }
        other => panic!("unexpected {:?}", other),
    }
    match pass.step(DetailEvent::Fetched(false)) {
        DetailAction::Fetch { index, progress } => {
            assert_eq!(index, 4);
            assert_eq!(progress.message, "Pulling offline recipe 4 of 5…");
        }
        other => panic!("unexpected {:?}", other),
    }
    assert_eq!(pass.step(DetailEvent::Fetched(true)), DetailAction::ReadImagePath { index: 4 });
    assert_eq!(pass.step(DetailEvent::ImagePathRead(true)), DetailAction::SavePayload { index: 4 });
    assert_eq!(pass.step(DetailEvent::Saved(false)), DetailAction::Finish);
    assert!(!pass.expects(DetailEvent::Fetched(true)));
    let report = sync_report(5, &ImageTally::new(0), pass.tally(), 7);
    assert_eq!(report.details_synced, 1);
    assert_eq!(report.errors, 4);

    let (_, action) = DetailPass::new(vec![false, false]);
    assert_eq!(action, DetailAction::Finish);
    let (pass, action) = DetailPass::new(vec![]);
    assert_eq!(action, DetailAction::Finish);
    assert_eq!(sync_report(0, &ImageTally::new(0), pass.tally(), 0).errors, 0);
}

use rustymeals::api::{
    create_item_body, created_item, error_with_detail, image_candidates, next_page,
    no_image_error, recipes_page_query, resource_status_error, shopping_item_update_body,
    shopping_lists_page_query, status_detail, updated_item, MealieClient, MealieRecipeSummary,
    MealieShoppingList, MealieShoppingListItem, MealieShoppingListSummary, MealieTag, PAGE_SIZE,
};
use rustymeals::json::JsonValue;

fn text(s: &str) -> JsonValue {
    JsonValue::Text(s.to_string())
}

fn number(s: &str) -> JsonValue {
    JsonValue::Number(s.to_string())
}

fn object(fields: Vec<(&str, JsonValue)>) -> JsonValue {
    JsonValue::Object(fields.into_iter().map(|(k, v)| (k.to_string(), v)).collect())
}

fn field<'a>(v: &'a JsonValue, key: &str) -> Option<&'a JsonValue> {
    v.get(key)
}

fn tag(name: &str) -> MealieTag {
    MealieTag { name: name.to_string() }
}

#[test]
fn parses_v3_pagination_envelope_with_tag_objects() {
    // The two items of the envelope, as the JSON decoding gives them.
    let first = MealieRecipeSummary {
        id: Some("b6e7d3a5-1111-2222-3333-444455556666".to_string()),
        name: Some("Pasta Carbonara".to_string()),
        slug: Some("pasta-carbonara".to_string()),
        description: Some("Classic Roman pasta".to_string()),
        image: Some("original.webp".to_string()),
        tags: Some(vec![tag("italian")]),
        categories: Some(vec![tag("main course")]),
    };
    let second = MealieRecipeSummary {
        id: Some("9999".to_string()),
        name: Some("No Image Recipe".to_string()),
        slug: Some("no-image-recipe".to_string()),
        description: None,
        image: None,
        tags: None,
        categories: None,
    };
    let items = vec![first, second];
    assert_eq!(items.len(), 2);
    assert_eq!(next_page(1, items.len(), 1), None);

    let first = &items[0];
    assert_eq!(first.id.as_deref(), Some("b6e7d3a5-1111-2222-3333-444455556666"));
    assert_eq!(first.slug.as_deref(), Some("pasta-carbonara"));
    assert_eq!(first.image.as_deref(), Some("original.webp"));
    assert_eq!(first.tag_names(), vec!["italian".to_string()]);
    assert_eq!(first.category_names(), vec!["main course".to_string()]);

    let second = &items[1];
    assert_eq!(second.image, None);
    assert_eq!(second.tag_names(), Vec::<String>::new());
    assert_eq!(second.category_names(), Vec::<String>::new());
}

#[test]
fn parses_shopping_list_summary_collection() {
    let items = vec![
        MealieShoppingListSummary { id: Some("list-1".to_string()), name: Some("Shopping list".to_string()) },
        MealieShoppingListSummary { id: Some("list-2".to_string()), name: Some("Weekly staples".to_string()) },
    ];
    assert_eq!(items.len(), 2);
    assert_eq!(items[1].id.as_deref(), Some("list-2"));
    assert_eq!(items[1].name.as_deref(), Some("Weekly staples"));
}

#[test]
fn parses_shopping_list_detail_with_items() {
    let list = MealieShoppingList {
        id: Some("list-1".to_string()),
        name: Some("Shopping list".to_string()),
        list_items: vec![
            MealieShoppingListItem {
                id: Some("item-1".to_string()),
                display: Some("2 cups milk".to_string()),
                note: Some("whole milk".to_string()),
                checked: false,
                position: 1,
            },
            MealieShoppingListItem {
                id: Some("item-2".to_string()),
                display: Some("4 eggs".to_string()),
                note: None,
                checked: true,
                position: 0,
            },
        ],
    };
    assert_eq!(list.id.as_deref(), Some("list-1"));
    assert_eq!(list.list_items.len(), 2);
    assert!(!list.list_items[0].checked);
    assert_eq!(list.list_items[0].position, 1);
    assert_eq!(list.list_items[0].note.as_deref(), Some("whole milk"));
    assert_eq!(list.list_items[0].display.as_deref(), Some("2 cups milk"));
    assert!(list.list_items[1].checked);
    assert_eq!(list.list_items[1].position, 0);
}

#[test]
fn shopping_item_update_body_echoes_editable_fields_and_forces_checked() {
    let item = object(vec![
        ("id", text("item-1")),
        ("shoppingListId", text("list-1")),
        ("display", text("2 cups milk")),
        ("note", text("whole milk")),
        ("checked", JsonValue::Bool(false)),
        ("position", number("3")),
        ("quantity", number("2.0")),
        ("extras", object(vec![])),
        ("unit", JsonValue::Null),
        ("food", JsonValue::Null),
        ("groupId", text("g")),
        ("householdId", text("h")),
        ("createdAt", text("2026-01-01T00:00:00Z")),
    ]);

    let body = shopping_item_update_body(&item, true);
    assert!(matches!(body, JsonValue::Object(_)));
    assert_eq!(field(&body, "checked"), Some(&JsonValue::Bool(true)));
    assert_eq!(field(&body, "display"), Some(&text("2 cups milk")));
    assert_eq!(field(&body, "note"), Some(&text("whole milk")));
    assert_eq!(field(&body, "position"), Some(&number("3")));
    assert_eq!(field(&body, "quantity"), Some(&number("2.0")));
    assert_eq!(field(&body, "shoppingListId"), Some(&text("list-1")));
    assert!(field(&body, "groupId").is_none());
    assert!(field(&body, "createdAt").is_none());
    assert!(field(&body, "id").is_none());
}

#[test]
fn update_body_of_a_non_object_only_sets_checked() {
    let body = shopping_item_update_body(&JsonValue::Null, false);
    assert_eq!(body, object(vec![("checked", JsonValue::Bool(false))]));
}

#[test]
fn parses_created_shopping_item_from_create_response() {
    let created = object(vec![
        ("quantity", number("1.0")),
        ("unit", JsonValue::Null),
        ("food", JsonValue::Null),
        ("referencedRecipe", JsonValue::Null),
        ("note", text("whole milk")),
        ("display", text("whole milk")),
        ("shoppingListId", text("list-1")),
        ("checked", JsonValue::Bool(false)),
        ("position", number("0")),
        ("extras", object(vec![])),
        ("id", text("item-9")),
        ("groupId", text("g")),
        ("householdId", text("h")),
    ]);
    let payload = object(vec![
        ("createdItems", JsonValue::Array(vec![created])),
        ("updatedItems", JsonValue::Array(vec![])),
        ("deletedItems", JsonValue::Array(vec![])),
    ]);

    let item = created_item(&payload).unwrap();
    assert_eq!(field(&item, "id"), Some(&text("item-9")));
    assert_eq!(field(&item, "display"), Some(&text("whole milk")));
    assert_eq!(field(&item, "note"), Some(&text("whole milk")));
    assert_eq!(
        updated_item(&payload),
        Err("Server did not return the updated item".to_string())
    );
}

#[test]
fn created_item_reports_missing_items() {
    assert_eq!(
        created_item(&object(vec![])),
        Err("Server did not return the created item".to_string())
    );
    assert_eq!(
        created_item(&object(vec![("createdItems", text("x"))])),
        Err("Server did not return the created item".to_string())
    );
}

#[test]
fn create_item_body_holds_note_and_list() {
    assert_eq!(
        create_item_body("list-1", "milk"),
        object(vec![("note", text("milk")), ("shoppingListId", text("list-1"))])
    );
}

#[test]
fn client_trims_trailing_slashes_and_builds_endpoints() {
    let c = MealieClient::new("https://meals.example/".to_string(), "tok".to_string());
    assert_eq!(c.base_url(), "https://meals.example");
    assert_eq!(c.token(), "tok");
    assert_eq!(c.recipes_url(), "https://meals.example/api/recipes");
    assert_eq!(c.recipe_url("pasta"), "https://meals.example/api/recipes/pasta");
    assert_eq!(
        c.image_url("r1", "min-original.webp"),
        "https://meals.example/api/media/recipes/r1/images/min-original.webp"
    );
    assert_eq!(c.shopping_lists_url(), "https://meals.example/api/households/shopping/lists");
    assert_eq!(
        c.shopping_list_url("l1"),
        "https://meals.example/api/households/shopping/lists/l1"
    );
    assert_eq!(
        c.shopping_list_recipe_url("l1", "r1"),
        "https://meals.example/api/households/shopping/lists/l1/recipe/r1"
    );
    assert_eq!(c.shopping_items_url(), "https://meals.example/api/households/shopping/items");
    assert_eq!(
        c.shopping_item_url("i1"),
        "https://meals.example/api/households/shopping/items/i1"
    );
}

#[test]
fn paging_stops_at_short_or_last_page() {
    assert_eq!(next_page(1, PAGE_SIZE, 0), Some(2));
    assert_eq!(next_page(1, PAGE_SIZE, 3), Some(2));
    assert_eq!(next_page(3, PAGE_SIZE, 3), None);
    assert_eq!(next_page(1, PAGE_SIZE - 1, 0), None);
    assert_eq!(next_page(2, 0, 5), None);
}

#[test]
fn page_queries() {
    assert_eq!(
        recipes_page_query(2),
        vec![("page".to_string(), "2".to_string()), ("perPage".to_string(), "100".to_string())]
    );
    assert_eq!(
        shopping_lists_page_query(1),
        vec![
            ("orderBy".to_string(), "name".to_string()),
            ("orderDirection".to_string(), "asc".to_string()),
            ("page".to_string(), "1".to_string()),
            ("perPage".to_string(), "100".to_string())
        ]
    );
}

#[test]
fn image_candidates_try_preferred_then_original() {
    assert_eq!(
        image_candidates("min-original.webp"),
        vec!["min-original.webp".to_string(), "original.webp".to_string()]
    );
}

#[test]
fn error_messages_include_status_and_body() {
    assert_eq!(error_with_detail("Network request failed", "timeout"), "Network request failed: timeout");
    assert_eq!(status_detail("404 Not Found", "  no such recipe \n"), "404 Not Found: no such recipe");
    assert_eq!(status_detail("500 Internal Server Error", "   "), "500 Internal Server Error");
    assert_eq!(
        resource_status_error("Server returned error code", "404 Not Found", "", "recipe", "pasta"),
        "Server returned error code 404 Not Found for recipe 'pasta'"
    );
    assert_eq!(no_image_error("r1"), "No image available for recipe 'r1'");
}

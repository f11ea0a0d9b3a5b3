use cafeconleche::api::{self, ApiResponse, Recipe};
use cafeconleche::store::{RecipeStore, StoreError};

fn named(name: &str) -> Recipe {
    Recipe { id: None, name: name.to_string() }
}

#[test]
fn create_then_get() {
    let mut store = RecipeStore::new();
    assert_eq!(store.create(10, "Cortado".to_string()), Ok(()));
    assert_eq!(store.get(10), Some("Cortado".to_string()));
}

#[test]
fn create_conflict_leaves_name() {
    let mut store = RecipeStore::new();
    assert_eq!(store.create(4, "Flat White".to_string()), Ok(()));
    assert_eq!(store.create(4, "Ristretto".to_string()), Err(StoreError::Conflict));
    assert_eq!(store.get(4), Some("Flat White".to_string()));
}

#[test]
fn replace_absent_is_not_found() {
    let mut store = RecipeStore::new();
    assert_eq!(store.replace(9, "Lungo".to_string()), Err(StoreError::NotFound));
    assert_eq!(store.get(9), None);
    assert!(store.list().is_empty());
}

#[test]
fn replace_overwrites() {
    let mut store = RecipeStore::new();
    assert_eq!(store.create(3, "Mocha".to_string()), Ok(()));
    assert_eq!(store.replace(3, "Macchiato".to_string()), Ok(()));
    assert_eq!(store.get(3), Some("Macchiato".to_string()));
}

#[test]
fn list_reflects_all_entries() {
    let mut store = RecipeStore::new();
    assert_eq!(store.create(1, "Espresso".to_string()), Ok(()));
    assert_eq!(store.create(2, "Latte".to_string()), Ok(()));
    assert_eq!(store.create(3, "Cappuccino".to_string()), Ok(()));
    assert_eq!(store.replace(2, "Oat Latte".to_string()), Ok(()));
    let mut pairs = store.list();
    pairs.sort_by_key(|p| p.0);
    assert_eq!(
        pairs,
        vec![
            (1, "Espresso".to_string()),
            (2, "Oat Latte".to_string()),
            (3, "Cappuccino".to_string()),
        ]
    );
}

#[test]
fn list_is_empty_on_fresh_store() {
    let store = RecipeStore::new();
    assert!(store.list().is_empty());
    assert_eq!(store.get(1), None);
}

#[test]
fn unmapped_path_yields_fixed_error() {
    let expected = ApiResponse::Error { reason: "Resource was not found.".to_string() };
    assert_eq!(api::not_found(), expected);
    // Independent of store contents: mutate a store and ask again.
    let mut store = api::rocket();
    let _ = api::new(30, named("Doppio"), &mut store);
    assert_eq!(api::not_found(), expected);
}

#[test]
fn distinct_creates_all_succeed() {
    let mut store = RecipeStore::new();
    for id in 0..5usize {
        assert_eq!(store.create(id, format!("recipe {}", id)), Ok(()));
    }
    let mut pairs = store.list();
    assert_eq!(pairs.len(), 5);
    pairs.sort_by_key(|p| p.0);
    for id in 0..5usize {
        assert_eq!(pairs[id], (id, format!("recipe {}", id)));
    }
}

#[test]
fn create_race_on_same_id_keeps_winner() {
    // The lock serializes two racing creates into one of the two orders;
    // in each, the first wins and the loser changes nothing.
    let mut first_wins = RecipeStore::new();
    assert_eq!(first_wins.create(5, "Americano".to_string()), Ok(()));
    assert_eq!(first_wins.create(5, "Red Eye".to_string()), Err(StoreError::Conflict));
    assert_eq!(first_wins.get(5), Some("Americano".to_string()));

    let mut second_wins = RecipeStore::new();
    assert_eq!(second_wins.create(5, "Red Eye".to_string()), Ok(()));
    assert_eq!(second_wins.create(5, "Americano".to_string()), Err(StoreError::Conflict));
    assert_eq!(second_wins.get(5), Some("Red Eye".to_string()));
}

#[test]
fn seeded_store_holds_fixture_entries() {
    let store = api::rocket();
    let mut pairs = store.list();
    pairs.sort_by_key(|p| p.0);
    assert_eq!(
        pairs,
        vec![(1, "Blooming Espresso".to_string()), (2, "Londinium".to_string())]
    );
}

#[test]
fn create_request_acknowledges_and_conflicts() {
    let mut store = RecipeStore::new();
    assert_eq!(api::new(7, named("Gibraltar"), &mut store), ApiResponse::Ack);
    assert_eq!(
        api::new(7, named("Breve"), &mut store),
        ApiResponse::Error { reason: "ID exists. Try put.".to_string() }
    );
    assert_eq!(store.get(7), Some("Gibraltar".to_string()));
}

#[test]
fn replace_request_acknowledges_or_is_absent() {
    let mut store = RecipeStore::new();
    assert_eq!(api::update(8, named("Affogato"), &mut store), None);
    assert_eq!(api::get(8, &store), None);
    assert_eq!(api::new(8, named("Affogato"), &mut store), ApiResponse::Ack);
    assert_eq!(api::update(8, named("Con Panna"), &mut store), Some(ApiResponse::Ack));
    assert_eq!(store.get(8), Some("Con Panna".to_string()));
}

#[test]
fn get_request_returns_pair_or_is_absent() {
    let mut store = RecipeStore::new();
    assert_eq!(api::get(2, &store), None);
    assert_eq!(api::new(2, named("Cold Brew"), &mut store), ApiResponse::Ack);
    assert_eq!(
        api::get(2, &store),
        Some(Recipe { id: Some(2), name: "Cold Brew".to_string() })
    );
}

#[test]
fn list_request_carries_identifiers() {
    let mut store = api::rocket();
    assert_eq!(api::new(3, named("Cascara Fizz"), &mut store), ApiResponse::Ack);
    let mut recipes = api::list(&store);
    recipes.sort_by_key(|r| r.id);
    assert_eq!(
        recipes,
        vec![
            Recipe { id: Some(1), name: "Blooming Espresso".to_string() },
            Recipe { id: Some(2), name: "Londinium".to_string() },
            Recipe { id: Some(3), name: "Cascara Fizz".to_string() },
        ]
    );
}

use aide_sandbox::errors::Error;
use aide_sandbox::naming::{derive_container_name, folder_key, sanitize_name, sort_strings};

fn strings(items: &[&str]) -> Vec<String> {
    items.iter().map(|s| s.to_string()).collect()
}

#[test]
fn sanitize_folds_case_and_keeps_dash_underscore() {
    assert_eq!(sanitize_name("My-App_2"), "my-app_2");
}

#[test]
fn sanitize_drops_everything_else() {
    assert_eq!(sanitize_name("@@@"), "");
    assert_eq!(sanitize_name("a b.c/d"), "abcd");
    assert_eq!(sanitize_name(""), "");
}

#[test]
fn derive_prefixes_and_joins_in_input_order() {
    assert_eq!(derive_container_name(&strings(&["app"])).unwrap(), "aide-app");
    assert_eq!(
        derive_container_name(&strings(&["api", "web"])).unwrap(),
        "aide-api-web"
    );
}

#[test]
fn derive_is_order_dependent() {
    let forward = derive_container_name(&strings(&["api", "web"])).unwrap();
    let backward = derive_container_name(&strings(&["web", "api"])).unwrap();
    assert_ne!(forward, backward);
    let forward3 = derive_container_name(&strings(&["api", "web", "db"])).unwrap();
    let backward3 = derive_container_name(&strings(&["db", "web", "api"])).unwrap();
    assert_ne!(forward3, backward3);
}

#[test]
fn derive_twice_yields_the_same_identity() {
    let folders = strings(&["My-Project", "tools"]);
    assert_eq!(
        derive_container_name(&folders).unwrap(),
        derive_container_name(&folders).unwrap()
    );
}

#[test]
fn derive_skips_unusable_names_and_fails_when_none_survive() {
    assert_eq!(
        derive_container_name(&strings(&["@@@", "app"])).unwrap(),
        "aide-app"
    );
    assert_eq!(
        derive_container_name(&strings(&["@@@"])).unwrap_err(),
        Error::NoDerivableName
    );
    assert_eq!(
        derive_container_name(&strings(&[])).unwrap_err(),
        Error::NoDerivableName
    );
    assert_eq!(
        Error::NoDerivableName.message(),
        "Could not derive container name from folders"
    );
}

#[test]
fn derive_truncates_to_sixty_four_characters() {
    let long_a = "a".repeat(50);
    let long_b = "b".repeat(50);
    let name = derive_container_name(&strings(&[&long_a, &long_b])).unwrap();
    assert_eq!(name.len(), 64);
    let expected_full = format!("aide-{}-{}", long_a, long_b);
    assert_eq!(name, &expected_full[..64]);
}

#[test]
fn folder_key_sorts_and_joins() {
    assert_eq!(folder_key(&strings(&["/x/b", "/x/a"])), "/x/a:/x/b");
    assert_eq!(folder_key(&strings(&["/x/a", "/x/b"])), "/x/a:/x/b");
}

#[test]
fn folder_key_is_order_independent() {
    let fwd = folder_key(&strings(&["/p/one", "/p/two", "/p/three"]));
    let rev = folder_key(&strings(&["/p/three", "/p/two", "/p/one"]));
    assert_eq!(fwd, rev);
}

#[test]
fn folder_key_of_single_folder_is_its_path() {
    assert_eq!(folder_key(&strings(&["/home/user/app"])), "/home/user/app");
}

#[test]
fn sort_strings_orders_lexicographically() {
    let sorted = sort_strings(&strings(&["pear", "apple", "fig", "apple"]));
    assert_eq!(sorted, strings(&["apple", "apple", "fig", "pear"]));
}

use std::collections::HashMap;

use ticker_poc::api::{
    auth_from_parsed, bearer_token, extract_auth_uuid, parse_worker_id, AuthError, AuthHeader,
};
use ticker_poc::library::{
    blueprint_kind, has_json_extension, Attribute, AttributeType, Blueprint, BlueprintKind,
    Building, Collection,
};
use ticker_poc::model;

fn building(slug: &str, ticks: u64) -> Building {
    Building {
        slug: slug.to_string(),
        name: format!("The {}", slug),
        version: "v2".to_string(),
        ticks,
        cost: HashMap::new(),
        attributes: HashMap::new(),
    }
}

#[test]
fn collection_finds_by_slug() {
    let mut c = Collection::new();
    assert!(c.keys().is_empty());
    c.insert_building(building("house", 3));
    c.insert_building(building("farm", 5));
    let b = c.get_blueprint("farm").unwrap();
    assert_eq!(b.slug(), "farm");
    assert_eq!(b.name(), "The farm");
    assert_eq!(b.version(), "v2");
    assert_eq!(b.ticks(), 5);
    assert!(b.cost().is_empty());
    assert!(c.get_blueprint("mill").is_none());
    let keys: Vec<String> = c.keys().into_iter().cloned().collect();
    assert_eq!(keys, vec!["house".to_string(), "farm".to_string()]);
}

#[test]
fn catalogue_entries_keep_their_attributes() {
    let mut b = building("tower", 4);
    b.attributes.insert(
        "height".to_string(),
        AttributeType::Float(Attribute { name: "height".into(), value: 12.5f64.to_bits() }),
    );
    let mut c = Collection::new();
    c.insert_building(b);
    let got = c.get_blueprint("tower").unwrap();
    match &got.attributes()["height"] {
        AttributeType::Float(a) => assert_eq!(f64::from_bits(a.value), 12.5),
        other => panic!("unexpected {:?}", other),
    }
}

#[test]
fn collection_insert_replaces_same_slug() {
    let mut c = Collection::default();
    c.insert_building(building("house", 3));
    c.insert_building(building("house", 9));
    assert_eq!(c.keys().len(), 1);
    assert_eq!(c.get_blueprint("house").unwrap().ticks(), 9);
}

#[test]
fn blueprint_converts_field_by_field() {
    let b = Blueprint::Building(building("well", 2));
    let m = model::Blueprint::from(b);
    assert_eq!(m.slug, "well");
    assert_eq!(m.name, "The well");
    assert_eq!(m.version, "v2");
    assert_eq!(m.ticks, 2);
}

#[test]
fn catalogue_directory_kinds() {
    assert_eq!(blueprint_kind("building"), Some(BlueprintKind::Building));
    assert_eq!(blueprint_kind("buildings"), None);
    assert_eq!(blueprint_kind("unit"), None);
    assert_eq!(blueprint_kind(""), None);
}

#[test]
fn json_extension_as_path_reads_it() {
    assert!(has_json_extension("house.json"));
    assert!(has_json_extension("a.b.json"));
    assert!(has_json_extension("..json"));
    assert!(!has_json_extension(".json"));
    assert!(!has_json_extension("json"));
    assert!(!has_json_extension("house.jsonx"));
    assert!(!has_json_extension("house.JSON"));
    assert!(!has_json_extension("house.txt"));
}

#[test]
fn bearer_prefix_is_stripped() {
    assert_eq!(bearer_token("Bearer abc"), "abc");
    assert_eq!(bearer_token("Bearer "), "");
    assert_eq!(bearer_token("bearer abc"), "bearer abc");
    assert_eq!(bearer_token("Token abc"), "Token abc");
    assert_eq!(bearer_token("Bear"), "Bear");
    assert_eq!(bearer_token(""), "");
}

#[test]
fn auth_header_gives_parent_id() {
    let header = AuthHeader::Text("Bearer a1a2a3a4-b1b2-c1c2-d1d2-d3d4d5d6d7d8".to_string());
    assert_eq!(extract_auth_uuid(&header), Ok(0xa1a2a3a4b1b2c1c2d1d2d3d4d5d6d7d8));
    let bare = AuthHeader::Text("67e55044-10b1-426f-9247-bb680e5fe0c8".to_string());
    assert_eq!(extract_auth_uuid(&bare), Ok(0x67e5504410b1426f9247bb680e5fe0c8));
    let empty = AuthHeader::Text("Bearer ".to_string());
    assert_eq!(extract_auth_uuid(&empty), Err(AuthError::InvalidUuid));
    assert_eq!(parse_worker_id("67e55044-10b1-426f-9247-bb680e5fe0c8"), Some(0x67e5504410b1426f9247bb680e5fe0c8));
    assert_eq!(parse_worker_id("nope"), None);
    let junk = AuthHeader::Text("Bearer not-a-uuid".to_string());
    assert_eq!(extract_auth_uuid(&junk), Err(AuthError::InvalidUuid));
    assert_eq!(extract_auth_uuid(&AuthHeader::Missing), Err(AuthError::Missing));
    assert_eq!(extract_auth_uuid(&AuthHeader::NotText), Err(AuthError::InvalidHeader));
    assert_eq!(auth_from_parsed(Some(3)), Ok(3));
    assert_eq!(auth_from_parsed(None), Err(AuthError::InvalidUuid));
}

#[test]
fn auth_error_messages() {
    assert_eq!(AuthError::Missing.message(), "Authorization header missing");
    assert_eq!(AuthError::InvalidHeader.message(), "Invalid authorization header");
    assert_eq!(AuthError::InvalidUuid.message(), "Invalid UUID in authorization header");
}

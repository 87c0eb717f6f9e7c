use dolbaeb_simulator::tiled::{collision_grid_from_doc, collision_grid_from_json, JsonValue};

const MAP: &str = r#"{
  "height": 2, "width": 3,
  "layers": [
    {"name": "Ground", "data": [1, 1, 1, 1, 1, 1]},
    {"name": "Collisions", "data": [0, 5, 0, 0, 0, 7]}
  ]
}"#;

#[test]
fn walls_come_from_the_collisions_layer() {
    let g = collision_grid_from_json(MAP, 6);
    assert_eq!(g, vec![false, true, false, false, false, true]);
}

#[test]
fn text_that_is_no_json_gives_no_walls() {
    let g = collision_grid_from_json("{ not json", 4);
    assert_eq!(g, vec![false; 4]);
}

#[test]
fn data_beyond_the_grid_is_ignored_and_short_data_leaves_open_tiles() {
    let g = collision_grid_from_json(r#"{"layers":[{"name":"Collisions","data":[1,1,1,1]}]}"#, 2);
    assert_eq!(g, vec![true, true]);
    let g = collision_grid_from_json(r#"{"layers":[{"name":"Collisions","data":[1]}]}"#, 3);
    assert_eq!(g, vec![true, false, false]);
}

#[test]
fn non_integer_entries_and_other_layers_mark_nothing() {
    let json = r#"{"layers":[
        {"name":"Collisions","data":[0.5, -3, "1", null, 2]},
        {"name":"collisions","data":[1, 1, 1, 1, 1]},
        {"data":[1, 1, 1, 1, 1]},
        {"name":"Collisions","data":"oops"}
    ]}"#;
    let g = collision_grid_from_json(json, 5);
    assert_eq!(g, vec![false, false, false, false, true]);
}

#[test]
fn several_collision_layers_add_up() {
    let json = r#"{"layers":[
        {"name":"Collisions","data":[1, 0, 0]},
        {"name":"Collisions","data":[0, 0, 3]}
    ]}"#;
    assert_eq!(collision_grid_from_json(json, 3), vec![true, false, true]);
}

#[test]
fn layers_must_be_an_array() {
    assert_eq!(collision_grid_from_json(r#"{"layers": {"name":"Collisions"}}"#, 2), vec![false, false]);
    assert_eq!(collision_grid_from_json(r#"[1, 2, 3]"#, 2), vec![false, false]);
}

#[test]
fn grid_from_a_document_built_by_hand() {
    let layer = JsonValue::Object(vec![
        ("name".to_string(), JsonValue::Str("Collisions".to_string())),
        (
            "data".to_string(),
            JsonValue::Array(vec![
                JsonValue::Number(Some(0)),
                JsonValue::Number(Some(9)),
                JsonValue::Number(None),
            ]),
        ),
    ]);
    let doc = JsonValue::Object(vec![("layers".to_string(), JsonValue::Array(vec![layer]))]);
    assert_eq!(collision_grid_from_doc(&doc, 3), vec![false, true, false]);
    assert_eq!(collision_grid_from_doc(&JsonValue::Null, 2), vec![false, false]);
}

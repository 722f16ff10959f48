use rphys::schema::scene_json_schema;

#[test]
fn test_scene_json_schema_is_valid_json() {
    let schema = scene_json_schema();
    let _: serde_json::Value = serde_json::from_str(schema).expect("scene_json_schema() must be valid JSON");
}

#[test]
fn schema_names_the_format() {
    let schema = scene_json_schema();
    assert!(schema.contains("\"$schema\""));
    assert!(schema.contains("rphys-scene"));
}

#[test]
fn schema_covers_every_key_the_reader_accepts() {
    let v: serde_json::Value = serde_json::from_str(scene_json_schema()).unwrap();
    assert!(v["properties"]["vfx"].is_object());
    assert!(v["properties"]["environment"]["properties"]["walls"]["properties"]["open_bottom"].is_object());
    assert!(v["definitions"]["SceneObject"]["properties"]["bumper"].is_object());
    let kinds = v["definitions"]["EndCondition"]["properties"]["type"]["enum"].as_array().unwrap();
    assert!(kinds.iter().any(|k| k == "first_to_reach"));
}

use rdisplay::errors::ResetError;
use rdisplay::json::Json;
use rdisplay::reset::reset_field;

/// The document `{"das": {"gui_tile_state": <value>}}`.
fn nested_doc(value: &str) -> Json {
    Json::Obj(vec![(
        "das".to_string(),
        Json::Obj(vec![("gui_tile_state".to_string(), Json::Str(value.to_string()))]),
    )])
}

#[test]
fn clears_the_nested_field() {
    let doc = nested_doc("3,1,ON");
    let out = reset_field(doc).unwrap();
    assert_eq!(out, nested_doc(""));
}

#[test]
fn clears_an_already_empty_field() {
    let doc = nested_doc("");
    let out = reset_field(doc).unwrap();
    assert_eq!(out, nested_doc(""));
}

#[test]
fn running_twice_gives_the_same_document() {
    let once = reset_field(nested_doc("7,7,OFF")).unwrap();
    let twice = reset_field(reset_field(nested_doc("7,7,OFF")).unwrap()).unwrap();
    assert_eq!(twice, once);
}

#[test]
fn keeps_every_sibling_field() {
    let doc = Json::Obj(vec![
        ("alpha".to_string(), Json::Num("42".to_string())),
        (
            "das".to_string(),
            Json::Obj(vec![
                ("brightness".to_string(), Json::Num("11".to_string())),
                ("gui_tile_state".to_string(), Json::Str("3,1,ON".to_string())),
                ("layout".to_string(), Json::Arr(vec![Json::Bool(true), Json::Null])),
            ]),
        ),
        ("omega".to_string(), Json::Str("keep me".to_string())),
    ]);
    let expected = Json::Obj(vec![
        ("alpha".to_string(), Json::Num("42".to_string())),
        (
            "das".to_string(),
            Json::Obj(vec![
                ("brightness".to_string(), Json::Num("11".to_string())),
                ("gui_tile_state".to_string(), Json::Str(String::new())),
                ("layout".to_string(), Json::Arr(vec![Json::Bool(true), Json::Null])),
            ]),
        ),
        ("omega".to_string(), Json::Str("keep me".to_string())),
    ]);
    let out = reset_field(doc).unwrap();
    assert_eq!(out, expected);
}

#[test]
fn missing_das_fails_naming_das() {
    let doc = Json::Obj(vec![("other".to_string(), Json::Null)]);
    let err = reset_field(doc).unwrap_err();
    assert_eq!(err, ResetError::MissingField("das".to_string()));
}

#[test]
fn non_object_root_fails_naming_das() {
    let doc = Json::Arr(vec![Json::Str("das".to_string())]);
    let err = reset_field(doc).unwrap_err();
    assert_eq!(err, ResetError::MissingField("das".to_string()));
}

#[test]
fn das_without_the_field_fails_naming_the_field() {
    let doc = Json::Obj(vec![(
        "das".to_string(),
        Json::Obj(vec![("brightness".to_string(), Json::Num("11".to_string()))]),
    )]);
    let err = reset_field(doc).unwrap_err();
    assert_eq!(err, ResetError::MissingField("gui_tile_state".to_string()));
}

#[test]
fn das_that_is_no_object_fails_naming_the_field() {
    let doc = Json::Obj(vec![("das".to_string(), Json::Str("flat".to_string()))]);
    let err = reset_field(doc).unwrap_err();
    assert_eq!(err, ResetError::MissingField("gui_tile_state".to_string()));
}

#[test]
fn first_matching_key_is_the_one_cleared() {
    // An object list may in principle carry a repeated key; the reset
    // touches the earliest `das`, as a lookup in the parsed text would.
    let doc = Json::Obj(vec![
        (
            "das".to_string(),
            Json::Obj(vec![("gui_tile_state".to_string(), Json::Str("a".to_string()))]),
        ),
        (
            "das".to_string(),
            Json::Obj(vec![("gui_tile_state".to_string(), Json::Str("b".to_string()))]),
        ),
    ]);
    let out = reset_field(doc).unwrap();
    let expected = Json::Obj(vec![
        (
            "das".to_string(),
            Json::Obj(vec![("gui_tile_state".to_string(), Json::Str(String::new()))]),
        ),
        (
            "das".to_string(),
            Json::Obj(vec![("gui_tile_state".to_string(), Json::Str("b".to_string()))]),
        ),
    ]);
    assert_eq!(out, expected);
}

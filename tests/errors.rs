use nai_core::api::ApiError;
use nai_core::store::{Database, LastGenerationStore, PresetStore, PromptSnippetStore};

#[test]
fn api_errors_map_to_status_codes() {
    let e = ApiError::bad_request("bad".to_string());
    assert_eq!(e.status_code(), 400);
    assert_eq!(e.message(), "bad");
    let e = ApiError::not_found("job not found".to_string());
    assert_eq!(e.status_code(), 404);
    assert_eq!(e.message(), "job not found");
    let e = ApiError::internal("oops".to_string());
    assert_eq!(e.status_code(), 500);
    assert!(matches!(e, ApiError::Internal(_)));
}

#[test]
fn store_handles_keep_their_path() {
    let db = Database::sqlite("outputs/nai-ui.sqlite".to_string());
    assert_eq!(db.db_path(), "outputs/nai-ui.sqlite");
    let snippets = PromptSnippetStore::new(db.clone());
    assert_eq!(snippets.db().db_path(), "outputs/nai-ui.sqlite");
    assert_eq!(LastGenerationStore::new("x.sqlite".to_string()).db_path(), "x.sqlite");
    assert_eq!(PresetStore::new("y.sqlite".to_string()).db_path(), "y.sqlite");
}

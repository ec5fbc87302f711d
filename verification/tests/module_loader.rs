use obscura::module_loader::{module_source_from_response, ObscuraModuleLoader};

#[test]
fn loader_keeps_base_url_and_state() {
    let loader = ObscuraModuleLoader::new("https://example.test/app/", 7u32);
    assert_eq!(loader.base_url, "https://example.test/app/");
    assert_eq!(*loader.shared_state(), 7);
}

#[test]
fn pseudo_referrers_resolve_against_the_page() {
    let loader = ObscuraModuleLoader::new("https://example.test/app/", ());
    for referrer in ["", "<anonymous>", "<eval>", ".", "about:blank"] {
        assert_eq!(loader.resolution_base(referrer), "https://example.test/app/", "{referrer:?}");
    }
    assert_eq!(
        loader.resolution_base("https://cdn.example/lib.js"),
        "https://cdn.example/lib.js"
    );
    assert_eq!(loader.resolution_base("./x.js"), "./x.js");
}

#[test]
fn successful_response_is_the_module_source() {
    assert_eq!(
        module_source_from_response("https://cdn.example/m.js", 200, b"export const a = 1;"),
        Ok("export const a = 1;".to_string())
    );
    assert_eq!(
        module_source_from_response("https://cdn.example/m.js", 299, b"x\xff"),
        Ok("x\u{fffd}".to_string())
    );
}

#[test]
fn failed_response_names_url_and_status() {
    assert_eq!(
        module_source_from_response("https://cdn.example/m.js", 404, b"not found"),
        Err("Module https://cdn.example/m.js returned HTTP 404".to_string())
    );
    assert_eq!(
        module_source_from_response("https://cdn.example/m.js", 300, b""),
        Err("Module https://cdn.example/m.js returned HTTP 300".to_string())
    );
    assert!(module_source_from_response("u", 199, b"").is_err());
}

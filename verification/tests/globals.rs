use errorscript::globals::{EscGlobal, EscGlobals};

fn path(entry: Option<EscGlobal>) -> Option<String> {
    entry.map(|entry| entry.path)
}

#[test]
fn property_indexes_match_path_lookup_including_global_this() {
    for global in EscGlobals::all() {
        if let Some((object, property)) = global.path.rsplit_once('.') {
            for object in [object.to_owned(), format!("globalThis.{object}")] {
                assert_eq!(
                    path(EscGlobals::property(&object, property)),
                    path(EscGlobals::get(&format!("{object}.{property}")))
                );
            }
            if let Some(instance) = object.strip_suffix(".prototype") {
                assert_eq!(
                    path(EscGlobals::prototype_property(instance, property)),
                    Some(global.path.clone())
                );
            }
        }
    }
    for object in [
        "globalThis",
        "globalThis.globalThis",
        "JSON",
        "DataView",
        "unknown",
        "missing",
    ] {
        for property in [
            "JSON",
            "globalThis.JSON",
            "parse",
            "prototype.getUint32",
            "missing",
        ] {
            assert_eq!(
                path(EscGlobals::property(object, property)),
                path(EscGlobals::get(&format!("{object}.{property}"))),
                "{object}.{property}"
            );
            assert_eq!(
                path(EscGlobals::prototype_property(object, property)),
                path(EscGlobals::get(&format!("{object}.prototype.{property}")))
            );
        }
    }
}

#[test]
fn global_this_prefix_is_ignored() {
    assert_eq!(
        path(EscGlobals::get("globalThis.JSON.parse")),
        Some("JSON.parse".to_string())
    );
    assert_eq!(path(EscGlobals::get("missing.thing")), None);
}

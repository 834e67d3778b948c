use ghost::manifest::{
    assert_package, Deps, Package, PackageManifest, PubPriv, Sources, ValidationError,
};

fn pkg(name: &str, kind: &str, files: Vec<String>) -> PackageManifest {
    PackageManifest {
        package: Package { name: name.to_string(), version: None, kind: kind.to_string() },
        sources: Sources { files },
        public: None,
        private: None,
        deps: None,
    }
}

#[test]
fn accepts_every_recognized_kind_with_sources() {
    for kind in ["static", "shared", "interface", "exe", "test"] {
        let p = pkg("demo", kind, vec!["a.c".to_string()]);
        assert!(assert_package(&p).is_ok());
    }
}

#[test]
fn rejects_unrecognized_kind() {
    let p = pkg("demo", "plugin", vec!["a.c".to_string()]);
    assert_eq!(
        assert_package(&p),
        Err(ValidationError::UnsupportedKind("plugin".to_string()))
    );
}

#[test]
fn rejects_empty_kind() {
    let p = pkg("demo", "", vec!["a.c".to_string()]);
    assert_eq!(assert_package(&p), Err(ValidationError::UnsupportedKind(String::new())));
}

#[test]
fn rejects_empty_source_list() {
    let p = pkg("demo", "static", vec![]);
    assert_eq!(assert_package(&p), Err(ValidationError::EmptySources));
}

#[test]
fn unsupported_kind_reported_before_empty_sources() {
    let p = pkg("demo", "plugin", vec![]);
    assert_eq!(
        assert_package(&p),
        Err(ValidationError::UnsupportedKind("plugin".to_string()))
    );
}

#[test]
fn manifest_model_round_trips_fields() {
    let p = PackageManifest {
        package: Package {
            name: "lib".to_string(),
            version: Some("1.0".to_string()),
            kind: "static".to_string(),
        },
        sources: Sources { files: vec!["src/a.c".to_string()] },
        public: Some(PubPriv {
            include_dirs: Some(vec!["inc".to_string()]),
            defines: None,
            link_libs: None,
            link_dirs: None,
        }),
        private: None,
        deps: Some(Deps { direct: Some(vec!["core".to_string()]), private: None }),
    };
    assert!(assert_package(&p).is_ok());
    assert_eq!(p.package.version.as_deref(), Some("1.0"));
}

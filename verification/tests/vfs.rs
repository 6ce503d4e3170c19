//! Path resolution under mapping tables.
use asbestos::path::{PathPrefix, VfsPath};
use asbestos::vfs::{
    Mapping, MappingFrom, MappingKind, MappingTo, Mappings, PathResolveError, _resolve_path,
    resolve_path,
};

fn p(s: &str) -> VfsPath {
    VfsPath::parse(s)
}

fn redirect_folders(from: &VfsPath, to: &VfsPath) -> Mapping {
    Mapping {
        kind: MappingKind::Redirect,
        from: MappingFrom::Folder(from.clone()),
        to: MappingTo::Folder(to.clone()),
    }
}

fn mount_folders(from: &VfsPath, to: &VfsPath) -> Mapping {
    Mapping {
        kind: MappingKind::Mount,
        from: MappingFrom::Folder(from.clone()),
        to: MappingTo::Folder(to.clone()),
    }
}

#[test]
fn test_redirect_mapping() {
    let dir = "target/test_redirect_mapping";
    let game = p(&format!("{}/game", dir));
    let mods = p(&format!("{}/mods", dir));
    let mod_loader = p(&format!("{}/mods/mod_loader", dir));
    let mod_loader_config = p(&format!("{}/mods/mod_loader/config", dir));
    let _ = mods;

    let mappings = Mappings {
        mappings: vec![redirect_folders(&mod_loader, &game)],
    };

    let res = _resolve_path(&mod_loader, &mappings).unwrap();
    assert_eq!(res, game);
    let res = _resolve_path(&mod_loader_config, &mappings).unwrap();
    assert_eq!(res, p(&format!("{}/game/config", dir)));
}

#[test]
fn test_mount_mapping() {
    let dir = "target/test_mount_mapping";
    let game = p(&format!("{}/game", dir));
    let game_plugins = p(&format!("{}/game/plugins", dir));
    let mods = p(&format!("{}/mods", dir));
    let total_conversion_mod = p(&format!("{}/mods/total_conversion", dir));
    let total_conversion_mod_config = p(&format!("{}/mods/total_conversion/config", dir));
    let total_conversion_mod_config_stuff =
        p(&format!("{}/mods/total_conversion/config/stuff", dir));
    let _ = (game, mods);

    let game_plugins_total_conversion = p(&format!("{}/game/plugins/total_conversion", dir));
    let game_plugins_total_conversion_config =
        p(&format!("{}/game/plugins/total_conversion/config", dir));
    let game_plugins_total_conversion_config_stuff =
        p(&format!("{}/game/plugins/total_conversion/config/stuff", dir));

    let mappings = Mappings {
        mappings: vec![mount_folders(&total_conversion_mod, &game_plugins)],
    };

    let res = _resolve_path(&game_plugins_total_conversion, &mappings).unwrap();
    assert_eq!(res, total_conversion_mod);
    let res = _resolve_path(&game_plugins_total_conversion_config, &mappings).unwrap();
    assert_eq!(res, total_conversion_mod_config);
    let res = _resolve_path(&game_plugins_total_conversion_config_stuff, &mappings).unwrap();
    assert_eq!(res, total_conversion_mod_config_stuff);
}

#[test]
fn redirect_folder_hits_itself() {
    let mappings = Mappings {
        mappings: vec![redirect_folders(&p("C:/mods/ml"), &p("C:/game"))],
    };
    assert_eq!(_resolve_path(&p("C:/mods/ml"), &mappings).unwrap(), p("C:/game"));
}

#[test]
fn redirect_folder_rewrites_descendant() {
    let mappings = Mappings {
        mappings: vec![redirect_folders(&p("C:/mods/ml"), &p("C:/game"))],
    };
    assert_eq!(
        _resolve_path(&p("C:/mods/ml/config"), &mappings).unwrap(),
        p("C:/game/config")
    );
}

#[test]
fn redirect_folder_ignores_similar_sibling() {
    // Component-wise, not textual: "C:/mods/mlx" is no descendant of
    // "C:/mods/ml".
    let mappings = Mappings {
        mappings: vec![redirect_folders(&p("C:/mods/ml"), &p("C:/game"))],
    };
    assert_eq!(_resolve_path(&p("C:/mods/mlx"), &mappings).unwrap(), p("C:/mods/mlx"));
}

#[test]
fn mount_folder_rewrites_virtual_child() {
    let mappings = Mappings {
        mappings: vec![mount_folders(&p("C:/mods/tc"), &p("C:/game/plugins"))],
    };
    assert_eq!(
        _resolve_path(&p("C:/game/plugins/tc/config/x"), &mappings).unwrap(),
        p("C:/mods/tc/config/x")
    );
}

#[test]
fn redirect_file_to_file() {
    let mappings = Mappings {
        mappings: vec![Mapping {
            kind: MappingKind::Redirect,
            from: MappingFrom::File(p("C:/a.ini")),
            to: MappingTo::File(p("D:/b.ini")),
        }],
    };
    assert_eq!(_resolve_path(&p("C:/a.ini"), &mappings).unwrap(), p("D:/b.ini"));
}

#[test]
fn redirect_file_into_folder() {
    let mappings = Mappings {
        mappings: vec![Mapping {
            kind: MappingKind::Redirect,
            from: MappingFrom::File(p("C:/a.ini")),
            to: MappingTo::Folder(p("D:/cfg")),
        }],
    };
    assert_eq!(_resolve_path(&p("C:/a.ini"), &mappings).unwrap(), p("D:/cfg/a.ini"));
}

#[test]
fn mount_file_into_folder() {
    let mappings = Mappings {
        mappings: vec![Mapping {
            kind: MappingKind::Mount,
            from: MappingFrom::File(p("C:/mods/extra.dat")),
            to: MappingTo::Folder(p("C:/game/data")),
        }],
    };
    assert_eq!(
        _resolve_path(&p("C:/game/data/extra.dat"), &mappings).unwrap(),
        p("C:/mods/extra.dat")
    );
    assert_eq!(
        _resolve_path(&p("C:/game/data/other.dat"), &mappings).unwrap(),
        p("C:/game/data/other.dat")
    );
}

#[test]
fn nt_prefix_is_preserved() {
    let mappings = Mappings {
        mappings: vec![Mapping {
            kind: MappingKind::Redirect,
            from: MappingFrom::File(p("C:/x")),
            to: MappingTo::File(p("D:/y")),
        }],
    };
    let input = p(r"\??\C:\x");
    assert_eq!(input.prefix, PathPrefix::Nt);
    let res = _resolve_path(&input, &mappings).unwrap();
    assert_eq!(res.prefix, PathPrefix::Nt);
    assert_eq!(res, p(r"\??\D:\y"));
}

#[test]
fn extended_prefix_is_preserved() {
    let mappings = Mappings {
        mappings: vec![redirect_folders(&p("C:/mods/ml"), &p("C:/game"))],
    };
    let input = p(r"\\?\C:\mods\ml\data.bin");
    assert_eq!(input.prefix, PathPrefix::Extended);
    let res = _resolve_path(&input, &mappings).unwrap();
    assert_eq!(res, p(r"\\?\C:\game\data.bin"));
}

#[test]
fn empty_table_is_identity() {
    let mappings = Mappings { mappings: vec![] };
    for s in [r"C:\anything\at\all", r"\??\C:\x", r"\\?\D:\y", ""] {
        assert_eq!(_resolve_path(&p(s), &mappings).unwrap(), p(s));
    }
}

#[test]
fn identity_redirect_leaves_inputs_unchanged() {
    let mappings = Mappings {
        mappings: vec![Mapping {
            kind: MappingKind::Redirect,
            from: MappingFrom::File(p("C:/Data")),
            to: MappingTo::File(p("C:/Data")),
        }],
    };
    // An exact hit and a miss come back exactly as they went in.
    assert_eq!(_resolve_path(&p("C:/Data"), &mappings).unwrap(), p("C:/Data"));
    assert_eq!(_resolve_path(&p("C:/other"), &mappings).unwrap(), p("C:/other"));
    // A hit that differs only in case comes back as the same path.
    let res = _resolve_path(&p("c:/dAtA"), &mappings).unwrap();
    assert!(res.equivalent(&p("c:/dAtA")));
}

#[test]
fn matching_is_case_insensitive() {
    let mappings = Mappings {
        mappings: vec![redirect_folders(&p("C:/Mods/ML"), &p("C:/game"))],
    };
    assert_eq!(
        _resolve_path(&p("c:/mods/ml/Config"), &mappings).unwrap(),
        p("C:/game/Config")
    );
}

#[test]
fn rules_chain_in_order() {
    // Mount a folder, then redirect a file that now appears inside it.
    let mappings = Mappings {
        mappings: vec![
            mount_folders(&p("C:/mods/tc"), &p("C:/game/plugins")),
            Mapping {
                kind: MappingKind::Redirect,
                from: MappingFrom::File(p("C:/mods/tc/config")),
                to: MappingTo::File(p("C:/patched/config")),
            },
        ],
    };
    assert_eq!(
        _resolve_path(&p("C:/game/plugins/tc/config"), &mappings).unwrap(),
        p("C:/patched/config")
    );
}

#[test]
fn invalid_redirect_combination_fails() {
    let mappings = Mappings {
        mappings: vec![Mapping {
            kind: MappingKind::Redirect,
            from: MappingFrom::Folder(p("C:/a")),
            to: MappingTo::File(p("C:/b")),
        }],
    };
    assert_eq!(
        _resolve_path(&p("C:/unrelated"), &mappings),
        Err(PathResolveError::InvalidMapping)
    );
}

#[test]
fn invalid_mount_combination_fails() {
    let valid = redirect_folders(&p("C:/mods"), &p("C:/game"));
    let invalid = Mapping {
        kind: MappingKind::Mount,
        from: MappingFrom::File(p("C:/a")),
        to: MappingTo::File(p("C:/b")),
    };
    let mappings = Mappings { mappings: vec![valid, invalid] };
    // The invalid rule poisons the whole table, even for paths the valid
    // rule would rewrite.
    assert_eq!(
        _resolve_path(&p("C:/mods/x"), &mappings),
        Err(PathResolveError::InvalidMapping)
    );
    assert_eq!(
        PathResolveError::InvalidMapping.message().as_str(),
        "Invalid VFS mapping"
    );
}

#[test]
fn resolution_is_deterministic() {
    let mappings = Mappings {
        mappings: vec![redirect_folders(&p("C:/mods/ml"), &p("C:/game"))],
    };
    let a = resolve_path(&p("C:/mods/ml/save"), &mappings).unwrap();
    let b = resolve_path(&p("C:/mods/ml/save"), &mappings).unwrap();
    assert_eq!(a, b);
}

#[test]
fn parse_splits_components_and_prefixes() {
    assert_eq!(p("C:/a//b\\"), VfsPath {
        prefix: PathPrefix::Plain,
        components: vec!["C:".to_string(), "a".to_string(), "b".to_string()],
    });
    assert_eq!(p(r"\??\C:\x").prefix, PathPrefix::Nt);
    assert_eq!(p(r"\\?\C:\x").prefix, PathPrefix::Extended);
    assert_eq!(p(r"\??\C:\x").components, vec!["C:".to_string(), "x".to_string()]);
    assert_eq!(p("").components, Vec::<String>::new());
}

#[test]
fn relative_components_are_noticed() {
    assert!(p("C:/a/../b").has_relative_components());
    assert!(p("./x").has_relative_components());
    assert!(!p("C:/a.b/..c/c..").has_relative_components());
    assert!(!p("").has_relative_components());
}

#[test]
fn render_writes_prefix_and_backslashes() {
    assert_eq!(p("C:/mods//ml/").render().as_str(), r"C:\mods\ml");
    assert_eq!(p(r"\??\C:/x").render().as_str(), r"\??\C:\x");
    assert_eq!(p(r"\\?\C:/x").render().as_str(), r"\\?\C:\x");
    assert_eq!(p("").render().as_str(), "");
}

use hbview3::project::{classify, file_kind, project_name, FileKind, Project};

#[test]
fn classify_sources_headers_assets() {
    assert_eq!(classify("/p/main.c"), FileKind::Source);
    assert_eq!(classify("/p/source/game.cpp"), FileKind::Source);
    assert_eq!(classify("/p/a.cc"), FileKind::Source);
    assert_eq!(classify("/p/a.cxx"), FileKind::Source);
    assert_eq!(classify("/p/include/game.h"), FileKind::Header);
    assert_eq!(classify("/p/include/game.hpp"), FileKind::Header);
    assert_eq!(classify("/p/assets/logo.png"), FileKind::Asset);
    assert_eq!(classify("/p/assets/music.ogg"), FileKind::Asset);
}

#[test]
fn classify_makefile_and_others() {
    assert_eq!(classify("/p/Makefile"), FileKind::Makefile);
    assert_eq!(classify("/p/README.md"), FileKind::Other);
    assert_eq!(classify("/p/makefile"), FileKind::Other);
    assert_eq!(classify("/p/.gitignore"), FileKind::Other);
    assert_eq!(classify("/p/Makefile.old"), FileKind::Other);
}

#[test]
fn file_kind_is_case_sensitive() {
    assert_eq!(file_kind(Some("C"), Some("main.C")), FileKind::Other);
    assert_eq!(file_kind(Some("c"), Some("main.c")), FileKind::Source);
    assert_eq!(file_kind(None, Some("Makefile")), FileKind::Makefile);
    assert_eq!(file_kind(None, None), FileKind::Other);
}

#[test]
fn load_rejects_a_file_as_root() {
    let r = Project::load("/p/main.c".to_string(), false, Vec::new());
    match r {
        Err(m) => assert_eq!(m, "/p/main.c n'est pas un dossier"),
        Ok(_) => panic!("a file is no project"),
    }
}

#[test]
fn load_sorts_files_by_kind_in_order() {
    let files = vec![
        "/home/me/MyHomebrew/main.c".to_string(),
        "/home/me/MyHomebrew/include/game.h".to_string(),
        "/home/me/MyHomebrew/source/game.cpp".to_string(),
        "/home/me/MyHomebrew/assets/logo.png".to_string(),
        "/home/me/MyHomebrew/Makefile".to_string(),
        "/home/me/MyHomebrew/README.md".to_string(),
    ];
    let p = Project::load("/home/me/MyHomebrew".to_string(), true, files).unwrap();
    assert_eq!(p.sources, vec!["/home/me/MyHomebrew/main.c", "/home/me/MyHomebrew/source/game.cpp"]);
    assert_eq!(p.headers, vec!["/home/me/MyHomebrew/include/game.h"]);
    assert_eq!(p.assets, vec!["/home/me/MyHomebrew/assets/logo.png"]);
    assert_eq!(p.makefile, Some("/home/me/MyHomebrew/Makefile".to_string()));
    assert_eq!(p.name(), "MyHomebrew");
}

#[test]
fn later_makefile_replaces_earlier() {
    let files = vec!["/r/Makefile".to_string(), "/r/sub/Makefile".to_string()];
    let p = Project::load("/r".to_string(), true, files).unwrap();
    assert_eq!(p.makefile, Some("/r/sub/Makefile".to_string()));
    assert!(p.sources.is_empty());
}

#[test]
fn add_file_ignores_other_files() {
    let mut p = Project::new("/r".to_string());
    p.add_file("/r/notes.txt".to_string());
    assert!(p.sources.is_empty() && p.headers.is_empty() && p.assets.is_empty());
    assert!(p.makefile.is_none());
    p.add_file("/r/x.hh".to_string());
    assert_eq!(p.headers, vec!["/r/x.hh"]);
}

#[test]
fn name_of_root_without_last_component_is_unknown() {
    let p = Project::new("/".to_string());
    assert_eq!(p.name(), "Unknown");
    assert_eq!(project_name(None), "Unknown");
    assert_eq!(project_name(Some("Game".to_string())), "Game");
}

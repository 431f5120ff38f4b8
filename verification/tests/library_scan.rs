use happyjlc::library_scan::{discover_library_files, FoundLocation};

fn location(path: &str, exists: bool, files: &[&str]) -> FoundLocation {
    FoundLocation {
        path: path.to_string(),
        exists,
        canonical: path.to_string(),
        files: files.iter().map(|f| f.to_string()).collect(),
    }
}

#[test]
fn export_and_configured_locations_get_their_kinds() {
    let output = location("/out", true, &["/out/z.kicad_sym", "/out/happyjlc.kicad_sym", "/out/notes.txt"]);
    let configured = vec![
        location("/ext", true, &["/ext/project.kicad_sym", "/out/z.kicad_sym"]),
        location("/missing", false, &[]),
        location("/usr/share/kicad/symbols", true, &["/usr/share/kicad/symbols/Device.kicad_sym"]),
        location("/empty", true, &[]),
    ];
    let (files, sources) = discover_library_files(&output, &configured).unwrap();
    let paths: Vec<&str> = files.iter().map(|f| f.path.as_str()).collect();
    assert_eq!(
        paths,
        vec!["/ext/project.kicad_sym", "/out/happyjlc.kicad_sym", "/out/z.kicad_sym", "/usr/share/kicad/symbols/Device.kicad_sym"]
    );
    assert_eq!(files[1].source_file, "happyjlc.kicad_sym");
    assert_eq!(files[1].source_kind, "export");
    assert!(files[1].editable);
    assert_eq!(files[0].source_file, "/ext/project.kicad_sym");
    assert_eq!(files[0].source_kind, "external");
    assert!(!files[0].editable);
    assert_eq!(files[3].source_kind, "kicad_standard");
    let kinds: Vec<(&str, &str, bool)> = sources.iter().map(|s| (s.path.as_str(), s.kind.as_str(), s.configured)).collect();
    assert_eq!(
        kinds,
        vec![("/ext", "external", true), ("/out", "export", false), ("/usr/share/kicad/symbols", "kicad_standard", true)]
    );
}

#[test]
fn a_missing_export_folder_gives_no_files() {
    let (files, sources) = discover_library_files(&location("/out", false, &[]), &[]).unwrap();
    assert!(files.is_empty());
    assert!(sources.is_empty());
}

#[test]
fn an_exported_file_outside_the_folder_is_refused() {
    let output = location("/out", true, &["/elsewhere/a.kicad_sym"]);
    assert_eq!(
        discover_library_files(&output, &[]).unwrap_err(),
        "Generated library file must stay inside /out"
    );
}

#[test]
fn a_location_given_twice_is_listed_once() {
    let output = location("/out", true, &["/out/a.kicad_sym"]);
    let configured = vec![location("/out", true, &["/out/a.kicad_sym"])];
    let (files, sources) = discover_library_files(&output, &configured).unwrap();
    assert_eq!(files.len(), 1);
    assert_eq!(sources.len(), 1);
    assert_eq!(sources[0].kind, "export");
}

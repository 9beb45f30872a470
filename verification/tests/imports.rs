use stylepack::error::Error;
use stylepack::expand::{compile_source, Expander, Reply, Request, Step};
use stylepack::scan::{import_candidates, parse_import_path, resolve_import};

/// Drives the import resolver against a simulated filesystem given as
/// `(canonical path, content)` pairs, counting the files read.
fn drive(
    entry: &str,
    includes: Vec<String>,
    files: &[(&str, &str)],
) -> (Result<String, Error>, Vec<String>) {
    let lookup = |p: &str| files.iter().find(|(k, _)| *k == p).map(|(_, v)| *v);
    let mut reads: Vec<String> = Vec::new();
    let (mut ex, mut req) = Expander::new(entry, &includes);
    for _ in 0..10_000 {
        let reply = match &req {
            Request::Canonicalize { path } => {
                if lookup(path).is_some() {
                    Reply::CanonOk { path: path.clone() }
                } else {
                    Reply::CanonFail
                }
            }
            Request::ReadFile { path } => match lookup(path) {
                Some(text) => {
                    reads.push(path.clone());
                    Reply::ReadOk { text: text.to_string() }
                }
                None => Reply::ReadFail,
            },
            Request::Probe { path } => Reply::ProbeResult { exists: lookup(path).is_some() },
        };
        match ex.step(reply) {
            Step::Ask { req: next } => req = next,
            Step::Done { text } => return (Ok(text), reads),
            Step::Fail { err } => return (Err(err), reads),
        }
    }
    panic!("resolver did not finish");
}

#[test]
fn no_import_means_one_read_only() {
    let files = [("/a.scss", "x { y: z; }")];
    let (merged, reads) = drive("/a.scss", vec![], &files);
    assert_eq!(merged.unwrap(), "x { y: z; }");
    assert_eq!(reads, vec!["/a.scss".to_string()]);
}

#[test]
fn self_import_contributes_content_once() {
    let files = [("/a.scss", "@import \"a.scss\";\np { c: d; }")];
    let (merged, reads) = drive("/a.scss", vec![], &files);
    let merged = merged.unwrap();
    assert_eq!(merged, "\n\np { c: d; }");
    assert_eq!(reads.len(), 1);
    let css = compile_source(&merged).unwrap();
    assert_eq!(css, "p {\n  c: d;\n}\n\n");
}

#[test]
fn mutual_import_cycle_terminates() {
    let files = [
        ("/a.scss", "@import \"b\";\na { x: y; }"),
        ("/b.scss", "@import \"a\";\nb { p: q; }"),
    ];
    let (merged, reads) = drive("/a.scss", vec![], &files);
    let merged = merged.unwrap();
    assert_eq!(reads.len(), 2);
    assert_eq!(merged.matches("a { x: y; }").count(), 1);
    assert_eq!(merged.matches("b { p: q; }").count(), 1);
}

#[test]
fn diamond_import_read_once() {
    let files = [
        ("/m.scss", "@import \"b\";\n@import \"c\";"),
        ("/b.scss", "@import \"d\";\nb { p: q; }"),
        ("/c.scss", "@import \"d\";\nc { p: q; }"),
        ("/d.scss", "d { s: t; }"),
    ];
    let (merged, reads) = drive("/m.scss", vec![], &files);
    let merged = merged.unwrap();
    assert_eq!(reads.iter().filter(|p| *p == "/d.scss").count(), 1);
    assert_eq!(merged.matches("d { s: t; }").count(), 1);
}

#[test]
fn relative_candidate_beats_include_path() {
    let files = [
        ("/dir/main.scss", "@import \"lib\";"),
        ("/dir/lib.scss", "a { x: rel; }"),
        ("/inc/lib.scss", "a { x: inc; }"),
    ];
    let (merged, _) = drive("/dir/main.scss", vec!["/inc".to_string()], &files);
    let merged = merged.unwrap();
    assert!(merged.contains("rel"));
    assert!(!merged.contains("inc"));
}

#[test]
fn include_path_used_when_no_relative_candidate() {
    let files = [
        ("/dir/main.scss", "@import \"lib\";"),
        ("/inc/lib.scss", "a { x: inc; }"),
    ];
    let (merged, _) = drive("/dir/main.scss", vec!["/inc".to_string()], &files);
    assert!(merged.unwrap().contains("inc"));
}

#[test]
fn unresolved_import_fails() {
    let files = [("/a.scss", "@import \"nowhere\";")];
    let (res, _) = drive("/a.scss", vec![], &files);
    assert!(matches!(res.unwrap_err(), Error::ImportNotFound { .. }));
}

#[test]
fn unreadable_entry_fails_with_io_error() {
    let (res, _) = drive("/missing.scss", vec![], &[]);
    assert!(matches!(res.unwrap_err(), Error::Io { .. }));
}

#[test]
fn unterminated_import_is_malformed() {
    let files = [("/a.scss", "@import \"x\"")];
    let (res, _) = drive("/a.scss", vec![], &files);
    assert!(matches!(res.unwrap_err(), Error::MalformedImport { .. }));
}

#[test]
fn unquoted_import_is_malformed() {
    let files = [("/a.scss", "@import theme;")];
    let (res, _) = drive("/a.scss", vec![], &files);
    assert!(matches!(res.unwrap_err(), Error::MalformedImport { .. }));
}

#[test]
fn parse_import_path_accepts_both_quotes() {
    assert_eq!(parse_import_path("@import 'theme';").unwrap(), "theme");
    assert_eq!(parse_import_path("  @import \"a/b.scss\" ; ").unwrap(), "a/b.scss");
    assert!(parse_import_path("@import theme;").is_err());
    assert!(parse_import_path("import \"x\";").is_err());
}

#[test]
fn candidate_order_is_documented_contract() {
    assert_eq!(
        import_candidates("x"),
        vec![
            "x".to_string(),
            "x.scss".to_string(),
            "_x".to_string(),
            "_x.scss".to_string(),
        ]
    );
    assert_eq!(
        import_candidates("sub/y.scss"),
        vec!["sub/y.scss".to_string(), "sub/_y.scss".to_string()]
    );
}

#[test]
fn probe_list_relative_then_includes() {
    let incs = vec!["/i".to_string()];
    assert_eq!(
        resolve_import("x", "/d", &incs),
        vec![
            "/d/x".to_string(),
            "/d/x.scss".to_string(),
            "/d/_x".to_string(),
            "/d/_x.scss".to_string(),
            "/i/x".to_string(),
            "/i/x.scss".to_string(),
            "/i/_x".to_string(),
            "/i/_x.scss".to_string(),
        ]
    );
}

#[test]
fn malformed_import_offset_points_at_statement() {
    let files = [("/a.scss", "p { c: d; } @import theme;")];
    let (res, _) = drive("/a.scss", vec![], &files);
    match res.unwrap_err() {
        Error::MalformedImport { offset } => assert_eq!(offset, 12),
        other => panic!("unexpected error: {:?}", other),
    }
}

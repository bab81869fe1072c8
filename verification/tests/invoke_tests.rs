use capnls::{invocation_args, DocPath, DocRef, InvokeError};

fn local_doc(path: &str) -> DocRef {
    DocRef { scheme: String::from("file"), path: DocPath::Local(String::from(path)) }
}

#[test]
fn plans_compile_invocation() {
    let doc = local_doc("/work/foo.capnp");
    let search = vec![Some(String::from("/work")), Some(String::from("/usr/include"))];
    assert_eq!(
        invocation_args(&doc, &search),
        Ok(vec![
            String::from("capnp"),
            String::from("compile"),
            String::from("-I/work"),
            String::from("-I/usr/include"),
            String::from("/work/foo.capnp"),
        ])
    );
}

#[test]
fn plans_invocation_without_search_paths() {
    let doc = local_doc("/work/foo.capnp");
    assert_eq!(
        invocation_args(&doc, &vec![]),
        Ok(vec![
            String::from("capnp"),
            String::from("compile"),
            String::from("/work/foo.capnp"),
        ])
    );
}

#[test]
fn non_representable_search_path_is_skipped() {
    // One bad search-path entry never aborts the plan for an otherwise
    // valid document: the entry is dropped, the rest stay in order.
    let doc = local_doc("/work/foo.capnp");
    let search = vec![Some(String::from("/a")), None, Some(String::from("/b"))];
    assert_eq!(
        invocation_args(&doc, &search),
        Ok(vec![
            String::from("capnp"),
            String::from("compile"),
            String::from("-I/a"),
            String::from("-I/b"),
            String::from("/work/foo.capnp"),
        ])
    );
}

#[test]
fn network_scheme_is_rejected() {
    // A non-local document reference fails before any process could be
    // planned, whatever its path looks like.
    let doc = DocRef {
        scheme: String::from("https"),
        path: DocPath::Local(String::from("/work/foo.capnp")),
    };
    assert_eq!(invocation_args(&doc, &vec![]), Err(InvokeError::UnsupportedScheme));
}

#[test]
fn unresolvable_path_is_rejected() {
    let doc = DocRef { scheme: String::from("file"), path: DocPath::Unresolvable };
    assert_eq!(invocation_args(&doc, &vec![]), Err(InvokeError::UnresolvablePath));
}

#[test]
fn non_representable_path_is_rejected() {
    let doc = DocRef { scheme: String::from("file"), path: DocPath::NonRepresentable };
    assert_eq!(invocation_args(&doc, &vec![]), Err(InvokeError::NonRepresentablePath));
}

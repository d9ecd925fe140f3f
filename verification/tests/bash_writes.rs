use storehouse_core::cli::bash_writes::{checked_bash_write_target, detect_bash_write_target, hook_file_path};

fn target(cmd: &str) -> Option<String> {
    detect_bash_write_target(cmd)
}

#[test]
fn reads_without_a_kernel_extension_are_clear() {
    assert_eq!(target("git status"), None);
    assert_eq!(target("ls -la > listing.txt"), None);
}

#[test]
fn stdout_and_append_redirects_are_writes() {
    assert_eq!(target("echo hi > foo.rs"), Some("foo.rs".to_string()));
    assert_eq!(target("echo hi >>bar.py"), Some("bar.py".to_string()));
    assert_eq!(target("cat > path.rs <<EOF\nfn main() {}\nEOF"), Some("path.rs".to_string()));
    assert_eq!(target("echo x > \"quoted.sh\""), Some("quoted.sh".to_string()));
}

#[test]
fn redirect_to_other_files_is_clear() {
    assert_eq!(target("grep fn main.rs > out.txt"), None);
}

#[test]
fn redirect_inside_a_comment_is_ignored() {
    assert_eq!(target("ls # > a.rs"), None);
}

#[test]
fn tee_is_always_a_write() {
    assert_eq!(target("echo x | tee out.sh"), Some("out.sh".to_string()));
    assert_eq!(target("echo x | tee -a 'lib.rb'"), Some("lib.rb".to_string()));
}

#[test]
fn tee_inside_a_quoted_body_is_ignored() {
    assert_eq!(target("gh pr create --body \"see tee rust/src/main.rs\""), None);
}

#[test]
fn sed_writes_only_in_place() {
    assert_eq!(target("sed -i 's/a/b/' f.rb"), Some("f.rb".to_string()));
    assert_eq!(target("sed --in-place 's/a/b/' f.rb"), Some("f.rb".to_string()));
    assert_eq!(target("sed -n '120,200p' foo.rs"), None);
}

#[test]
fn awk_writes_only_with_inplace() {
    assert_eq!(target("awk -i inplace '{print}' f.py"), Some("f.py".to_string()));
    assert_eq!(target("awk -F, '{print}' f.py"), None);
}

#[test]
fn arguments_stop_at_a_pipe() {
    assert_eq!(target("sed -i s/a/b/ notes.txt | cat main.rs"), None);
}

#[test]
fn python_open_for_write_inside_a_string() {
    assert_eq!(
        target("python3 -c \"open('gen.rs', 'w').write('x')\""),
        Some("gen.rs".to_string())
    );
    assert_eq!(
        target("python3 -c \"open('log.py','a').write('x')\""),
        Some("log.py".to_string())
    );
    assert_eq!(target("python3 -c \"print(open('gen.rs').read())\""), None);
}

#[test]
fn non_ascii_inside_quotes_is_scanned_safely() {
    assert_eq!(target("echo 'é' > x.rs"), Some("x.rs".to_string()));
}

#[test]
fn a_redirect_target_cut_inside_a_character_is_refused() {
    // `Å` is C3 85, and 0x85 reads as whitespace byte by byte.
    assert_eq!(checked_bash_write_target("echo x > aÅ.rs"), None);
    assert_eq!(checked_bash_write_target("echo hi > foo.rs"), Some(Some("foo.rs".to_string())));
    assert_eq!(checked_bash_write_target("git status"), Some(None));
}

#[test]
fn the_hook_payload_names_the_edited_file() {
    assert_eq!(
        hook_file_path("{\"tool_name\":\"Edit\",\"tool_input\":{\"file_path\":\"src/a.rs\"}}"),
        Some(Some("src/a.rs".to_string()))
    );
    assert_eq!(
        hook_file_path("{\"tool_name\":\"Bash\",\"tool_input\":{\"command\":\"echo hi > foo.rs\"}}"),
        Some(Some("foo.rs".to_string()))
    );
    assert_eq!(hook_file_path("{\"tool_name\":\"Bash\",\"tool_input\":{\"command\":\"git status\"}}"), Some(None));
    assert_eq!(hook_file_path("{\"tool_name\":\"Read\",\"tool_input\":{\"command\":\"echo > a.rs\"}}"), Some(None));
    assert_eq!(hook_file_path("not json"), Some(None));
    assert_eq!(hook_file_path("{\"tool_name\":\"Bash\",\"tool_input\":{\"command\":\"echo x > aÅ.rs\"}}"), None);
}

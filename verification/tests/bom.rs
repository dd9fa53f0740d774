use posix_flock::bom::{
    auto_dynamic_loader, calculate_file_hash, check_file_hash, convert_to_absolute, dest_in_root,
    extract_dependencies_from_output, find_dependent_shared_objects, included_bom_candidates,
    has_plain_variables, loader_argument, parse_loader_config, resolve_envs, resolve_envs_from,
    resolve_relative_path, Loaders,
};

fn pair(a: &str, b: &str) -> (String, String) {
    (a.to_string(), b.to_string())
}

#[test]
fn hash_of_nothing() {
    assert_eq!(
        calculate_file_hash(b""),
        "E3B0C44298FC1C149AFBF4C8996FB92427AE41E4649B934CA495991B7852B855"
    );
}

#[test]
fn hash_of_abc() {
    assert_eq!(
        calculate_file_hash(b"abc"),
        "BA7816BF8F01CFEA414140DE5DAE2223B00361A396177A9CB410FF61F20015AD"
    );
}

#[test]
fn hash_is_checked_letter_for_letter() {
    let upper = "BA7816BF8F01CFEA414140DE5DAE2223B00361A396177A9CB410FF61F20015AD";
    assert!(check_file_hash(b"abc", upper));
    assert!(!check_file_hash(b"abd", upper));
    assert!(!check_file_hash(b"abc", &upper.to_lowercase()));
    assert!(!check_file_hash(b"abc", ""));
    assert!(!check_file_hash(b"abc", &upper[..63]));
}

#[test]
fn a_path_without_variables_resolves_to_itself() {
    assert_eq!(resolve_envs("/usr/lib/libc.so"), "/usr/lib/libc.so");
    assert_eq!(resolve_envs(""), "");
    assert_eq!(resolve_envs("{HOME}/~/lib:-x"), "{HOME}/~/lib:-x");
}

#[test]
fn a_variable_is_replaced_by_its_value_or_its_default() {
    assert_eq!(resolve_envs("a/${SURELY_NOT_SET_ANYWHERE_12345:-fallback}/b"), "a/fallback/b");
    assert_eq!(resolve_envs("a$$b"), "a$b");
}

#[test]
fn a_path_with_a_variable_that_cannot_be_looked_up_stays_as_it_is() {
    assert_eq!(
        resolve_envs("${SURELY_NOT_SET_ANYWHERE_12345}/lib"),
        "${SURELY_NOT_SET_ANYWHERE_12345}/lib"
    );
    assert_eq!(
        resolve_envs("$SURELY_NOT_SET_ANYWHERE_12345/lib"),
        "$SURELY_NOT_SET_ANYWHERE_12345/lib"
    );
}

#[test]
fn a_variable_begins_with_a_character_of_the_ascii_set() {
    assert!(has_plain_variables(""));
    assert!(has_plain_variables("$"));
    assert!(has_plain_variables("/usr/lib"));
    assert!(has_plain_variables("$HOME/${LIB:-lib}/$$/$_x/$ /$"));
    assert!(has_plain_variables("\u{e9}$a\u{e9}/$x\u{4e2d}"));
    assert!(!has_plain_variables("$\u{e9}"));
    assert!(!has_plain_variables("/a/$HOME/$\u{4e2d}/b"));
    assert!(!has_plain_variables("$$\u{e9}"));
    assert!(!has_plain_variables("a$\u{80}"));
    assert!(has_plain_variables("a$\u{7f}"));
}

#[test]
fn a_path_with_letters_outside_the_ascii_set_is_resolved_like_any_other() {
    assert_eq!(resolve_envs("/caf\u{e9}/lib"), "/caf\u{e9}/lib");
    assert_eq!(
        resolve_envs("\u{e9}/${SURELY_NOT_SET_ANYWHERE_12345:-\u{4e2d}}/$$\u{20}"),
        "\u{e9}/\u{4e2d}/$\u{20}"
    );
}

#[test]
fn the_expansion_is_taken_where_there_is_one() {
    assert_eq!(resolve_envs_from("$A/x", Some("/a/x".to_string())), "/a/x");
    assert_eq!(resolve_envs_from("$A/x", Some(String::new())), "");
    assert_eq!(resolve_envs_from("$A/x", None), "$A/x");
}

#[test]
fn an_absolute_destination_goes_below_the_root() {
    assert_eq!(dest_in_root("/image", "/usr/lib/libc.so"), Some("/image/usr/lib/libc.so".into()));
    assert_eq!(dest_in_root("image", "/bin"), Some("image/bin".into()));
    assert_eq!(dest_in_root("/image", "/"), Some("/image/".into()));
}

#[test]
fn a_relative_destination_goes_below_the_root() {
    assert_eq!(dest_in_root("/image", "usr/lib"), Some("/image/usr/lib".into()));
    assert_eq!(dest_in_root("/image/", "bin"), Some("/image/bin".into()));
}

#[test]
fn a_relative_path_is_taken_from_the_directory_of_the_file() {
    assert_eq!(resolve_relative_path("/opt/app/bin/app", "../lib/libx.so"), "/opt/app/bin/../lib/libx.so");
    assert_eq!(resolve_relative_path("dir/app", "libx.so"), "dir/libx.so");
    assert_eq!(resolve_relative_path("app", "libx.so"), "libx.so");
    assert_eq!(resolve_relative_path("/", "libx.so"), "./libx.so");
    assert_eq!(resolve_relative_path("", "libx.so"), "./libx.so");
    assert_eq!(resolve_relative_path("/opt/app", "/lib/libx.so"), "/lib/libx.so");
}

#[test]
fn an_absolute_path_is_kept() {
    assert_eq!(convert_to_absolute("/opt/app", "/lib/libc.so.6"), Some("/lib/libc.so.6".into()));
    assert_eq!(convert_to_absolute("app", "/lib/libc.so.6"), Some("/lib/libc.so.6".into()));
}

#[test]
fn a_relative_path_is_made_absolute_through_the_file() {
    assert_eq!(convert_to_absolute("/opt/app/bin/app", "libx.so"), Some("/opt/app/bin/libx.so".into()));
    assert_eq!(convert_to_absolute("bin/app", "libx.so"), None);
    assert_eq!(convert_to_absolute("app", "libx.so"), None);
}

#[test]
fn the_loader_gets_a_path_with_a_directory() {
    assert_eq!(loader_argument("/opt/app"), "/opt/app");
    assert_eq!(loader_argument("bin/app"), "bin/app");
    assert_eq!(loader_argument("app"), "app");
    assert_eq!(loader_argument(""), "./");
    assert_eq!(loader_argument("/"), "/");
}

#[test]
fn dependencies_are_read_from_the_loader_output() {
    let stdout = "\tlinux-vdso.so.1 (0x00007ffd2a5f1000)\n\
                  \tlibc.so.6 => /lib/x86_64-linux-gnu/libc.so.6 (0x00007f2f1c000000)\r\n\
                  \t/lib64/ld-linux-x86-64.so.2 => /lib/x86_64-linux-gnu/ld-2.31.so (0x00007f2f1c400000)\n\
                  \n\
                  \tlibm.so.6 => /lib/x86_64-linux-gnu/libm.so.6 (0x00007f2f1c200000)";
    assert_eq!(
        extract_dependencies_from_output("/opt/app", stdout.as_bytes()),
        vec![
            pair("/lib/x86_64-linux-gnu/libc.so.6", "/lib/x86_64-linux-gnu/libc.so.6"),
            pair("/lib/x86_64-linux-gnu/ld-2.31.so", "/lib/x86_64-linux-gnu/ld-2.31.so"),
            pair("/lib/x86_64-linux-gnu/ld-2.31.so", "/lib64/ld-linux-x86-64.so.2"),
            pair("/lib/x86_64-linux-gnu/libm.so.6", "/lib/x86_64-linux-gnu/libm.so.6"),
        ]
    );
}

#[test]
fn a_dependency_line_needs_something_behind_the_path() {
    assert!(extract_dependencies_from_output("/opt/app", "libc.so.6 => /lib/libc.so.6".as_bytes()).is_empty());
    assert!(extract_dependencies_from_output("/opt/app", "libc.so.6 => /lib/libc.so.6 \n".as_bytes()).is_empty());
    assert!(extract_dependencies_from_output("/opt/app", "libc.so.6 =>  /lib/libc.so.6 (0x1)".as_bytes()).is_empty());
    assert!(extract_dependencies_from_output("/opt/app", "libc.so.6\t=> /lib/libc.so.6 (0x1)".as_bytes()).is_empty());
    assert!(extract_dependencies_from_output("/opt/app", "see libc.so.6 => /lib/libc.so.6 (0x1)".as_bytes()).is_empty());
    assert!(extract_dependencies_from_output("/opt/app", "".as_bytes()).is_empty());
    assert_eq!(
        extract_dependencies_from_output("/opt/app", "  libc.so.6 => /lib/libc.so.6 (0x1)  ".as_bytes()),
        vec![pair("/lib/libc.so.6", "/lib/libc.so.6")]
    );
}

#[test]
fn a_relative_dependency_is_taken_from_the_directory_of_the_file() {
    assert_eq!(
        extract_dependencies_from_output("/opt/app/bin/app", "libx.so => ../lib/libx.so (0x1)".as_bytes()),
        vec![pair("/opt/app/bin/../lib/libx.so", "/opt/app/bin/../lib/libx.so")]
    );
    assert!(extract_dependencies_from_output("bin/app", "libx.so => ../lib/libx.so (0x1)".as_bytes()).is_empty());
    assert_eq!(
        extract_dependencies_from_output("/opt/app", "libx.so => not found".as_bytes()),
        vec![pair("/opt/not", "/opt/not")]
    );
}

#[test]
fn loader_output_that_is_not_utf8_is_read_with_replacements() {
    assert_eq!(
        extract_dependencies_from_output("/opt/app", b"lib\xffc.so => /lib/lib\xffc.so (0x1)\n"),
        vec![pair("/lib/lib\u{fffd}c.so", "/lib/lib\u{fffd}c.so")]
    );
}

#[test]
fn no_dependency_is_listed_twice() {
    let stdout = "libc.so.6 => /lib/libc.so.6 (0x1)\n\
                  /lib/libc.so.6 => /lib/libc.so.6 (0x2)\n\
                  libc.so.6 => /lib/libc.so.6 (0x3)\n\
                  /lib64/libc.so.6 => /lib/libc.so.6 (0x4)\n\
                  /lib64/libc.so.6 => /lib/libc.so.6 (0x5)\n";
    assert_eq!(
        extract_dependencies_from_output("/opt/app", stdout.as_bytes()),
        vec![pair("/lib/libc.so.6", "/lib/libc.so.6"), pair("/lib/libc.so.6", "/lib64/libc.so.6")]
    );
}

#[test]
fn a_file_without_a_loader_depends_on_nothing() {
    assert!(find_dependent_shared_objects("/opt/app", None, None).is_empty());
    assert!(find_dependent_shared_objects(
        "/opt/app",
        None,
        Some("libc.so.6 => /lib/libc.so.6 (0x1)".as_bytes())
    )
    .is_empty());
}

#[test]
fn a_file_depends_on_its_loader_and_on_what_the_loader_reports() {
    let loader = pair("/opt/occlum/glibc/lib/ld-linux-x86-64.so.2", "/lib64/ld-linux-x86-64.so.2");
    assert_eq!(
        find_dependent_shared_objects("/opt/app", Some(loader.clone()), None),
        vec![loader.clone()]
    );
    let stdout = "libc.so.6 => /opt/occlum/glibc/lib/libc.so.6 (0x1)\n\
                  /lib64/ld-linux-x86-64.so.2 => /opt/occlum/glibc/lib/ld-linux-x86-64.so.2 (0x2)\n";
    assert_eq!(
        find_dependent_shared_objects("/opt/app", Some(loader.clone()), Some(stdout.as_bytes())),
        vec![
            loader.clone(),
            pair("/opt/occlum/glibc/lib/libc.so.6", "/opt/occlum/glibc/lib/libc.so.6"),
            pair(
                "/opt/occlum/glibc/lib/ld-linux-x86-64.so.2",
                "/opt/occlum/glibc/lib/ld-linux-x86-64.so.2"
            ),
        ]
    );
}

#[test]
fn the_loader_of_the_file_is_replaced_by_the_one_set_for_its_name() {
    let mut loaders = Loaders::new();
    loaders.insert("ld-linux-x86-64.so.2".into(), "/opt/occlum/glibc/lib/ld-linux-x86-64.so.2".into());
    assert_eq!(
        auto_dynamic_loader(b"/lib64/ld-linux-x86-64.so.2\0", &loaders),
        Some(pair("/opt/occlum/glibc/lib/ld-linux-x86-64.so.2", "/lib64/ld-linux-x86-64.so.2"))
    );
    assert_eq!(
        auto_dynamic_loader(b"/lib/ld-musl-x86_64.so.1\0\0", &loaders),
        Some(pair("/lib/ld-musl-x86_64.so.1", "/lib/ld-musl-x86_64.so.1"))
    );
    assert_eq!(
        auto_dynamic_loader(b"/lib/ld-musl-x86_64.so.1", &Loaders::new()),
        Some(pair("/lib/ld-musl-x86_64.so.1", "/lib/ld-musl-x86_64.so.1"))
    );
}

#[test]
fn an_interpreter_that_names_no_file_gives_no_loader() {
    assert_eq!(auto_dynamic_loader(b"", &Loaders::new()), None);
    assert_eq!(auto_dynamic_loader(b"\0", &Loaders::new()), None);
    assert_eq!(auto_dynamic_loader(b"/\0", &Loaders::new()), None);
    assert_eq!(auto_dynamic_loader(b"/lib/..\0", &Loaders::new()), None);
}

#[test]
fn an_interpreter_that_is_not_utf8_is_read_with_replacements() {
    assert_eq!(
        auto_dynamic_loader(b"/lib/ld\xff.so\0", &Loaders::new()),
        Some(pair("/lib/ld\u{fffd}.so", "/lib/ld\u{fffd}.so"))
    );
}

#[test]
fn loaders_are_read_from_the_lines_of_the_configuration() {
    let loaders = parse_loader_config(
        "/opt/occlum/glibc/lib/ld-linux-x86-64.so.2\n\
         \n\
         \t /usr/local/occlum/x86_64-linux-musl/lib/ld-musl-x86_64.so.1  \r\n\
         /first/ld.so\n\
         /second/ld.so",
    )
    .unwrap();
    assert_eq!(
        loaders.get("ld-linux-x86-64.so.2"),
        Some("/opt/occlum/glibc/lib/ld-linux-x86-64.so.2".to_string())
    );
    assert_eq!(
        loaders.get("ld-musl-x86_64.so.1"),
        Some("/usr/local/occlum/x86_64-linux-musl/lib/ld-musl-x86_64.so.1".to_string())
    );
    assert_eq!(loaders.get("ld.so"), Some("/second/ld.so".to_string()));
    assert_eq!(loaders.get("/second/ld.so"), None);
    assert_eq!(parse_loader_config("").unwrap().get("ld.so"), None);
}

#[test]
fn a_configuration_line_that_names_no_file_is_refused() {
    assert!(parse_loader_config("/opt/ld.so\n/\n").is_none());
    assert!(parse_loader_config("..").is_none());
}

#[test]
fn an_included_file_is_looked_for_beside_the_bom_file_first() {
    let dirs = vec!["/etc/boms".to_string(), "boms".to_string()];
    assert_eq!(
        included_bom_candidates("base.yaml", "/opt/app/bom.yaml", &dirs, "/work"),
        vec!["/opt/app/base.yaml", "/etc/boms/base.yaml", "/work/boms/base.yaml"]
    );
    assert_eq!(
        included_bom_candidates("base.yaml", "bom.yaml", &Vec::new(), "/work"),
        vec!["base.yaml"]
    );
}

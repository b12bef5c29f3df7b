use preprocess::paths::derive_output_name;

#[test]
fn nested_path_with_dots_flattens() {
    assert_eq!(derive_output_name("a/b.c.yaml"), "a_b_c.md");
}

#[test]
fn extension_is_stripped_before_replacement() {
    assert_eq!(derive_output_name("x/y/z.yaml"), "x_y_z.md");
}

#[test]
fn path_without_extension_is_kept_whole() {
    assert_eq!(derive_output_name("a/b"), "a_b.md");
}

#[test]
fn backslash_separators_flatten_too() {
    assert_eq!(derive_output_name("a\\b.yaml"), "a_b.md");
}

#[test]
fn leading_dot_name_has_no_extension() {
    assert_eq!(derive_output_name(".config"), "_config.md");
}

#[test]
fn flattening_is_idempotent_on_its_own_output() {
    let once = derive_output_name("a/b.c.yaml");
    assert_eq!(derive_output_name(&once), once);
}

#[test]
fn flattening_same_input_twice_gives_same_name() {
    assert_eq!(derive_output_name("p/q.yaml"), derive_output_name("p/q.yaml"));
}

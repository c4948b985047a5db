use asset_extractor::output::output_path;

#[test]
fn virtual_path_is_joined_under_the_root() {
    assert_eq!(output_path("out", "a/b.txt"), "out/a/b.txt");
    assert_eq!(output_path("out", "c.txt"), "out/c.txt");
    assert_eq!(
        output_path("/srv/dump", "chara/human/c0101.sklb"),
        "/srv/dump/chara/human/c0101.sklb"
    );
}

#[test]
fn root_with_trailing_separator_gets_no_second_one() {
    assert_eq!(output_path("out/", "a/b.txt"), "out/a/b.txt");
    assert_eq!(output_path("/", "a.txt"), "/a.txt");
}

#[test]
fn empty_root_leaves_the_virtual_path() {
    assert_eq!(output_path("", "a/b.txt"), "a/b.txt");
}

#[test]
fn empty_virtual_path_names_the_root_directory() {
    assert_eq!(output_path("out", ""), "out/");
    assert_eq!(output_path("", ""), "");
}

#[test]
fn parent_segments_are_not_normalised() {
    assert_eq!(output_path("out", "../x/./y.dat"), "out/../x/./y.dat");
    assert_eq!(output_path("out", "a//b"), "out/a//b");
}

#[test]
fn virtual_path_with_leading_separator_replaces_the_root() {
    assert_eq!(output_path("out", "/etc/passwd"), "/etc/passwd");
}

#[test]
fn output_path_agrees_with_path_join() {
    let roots = ["", "out", "out/", "/", "/var/tmp", "rel/dir/", "ünï"];
    let paths = ["", "a", "a/b.txt", "/abs", "/", "../up", "a//b", "dir/", "é/ü.tex"];
    for root in roots {
        for path in paths {
            let joined = std::path::Path::new(root).join(path);
            assert_eq!(output_path(root, path), joined.to_str().unwrap());
        }
    }
}

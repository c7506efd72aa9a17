use image_viewer::tempfiles::{find_stem_end, suffix, sweep_paths, temp_path, TransformKind};

#[test]
fn suffixes_are_fixed() {
    assert_eq!(suffix(TransformKind::Gray), ".gray.tmp.png");
    assert_eq!(suffix(TransformKind::Threshold), ".threshold.tmp.png");
    assert_eq!(suffix(TransformKind::Cleanup), ".cleanup.tmp.png");
}

#[test]
fn temp_path_appends_the_suffix_to_the_whole_path() {
    assert_eq!(temp_path("/a/b/photo.jpg", TransformKind::Gray), "/a/b/photo.jpg.gray.tmp.png");
    assert_eq!(
        temp_path("/a/b/photo.jpg", TransformKind::Threshold),
        "/a/b/photo.jpg.threshold.tmp.png"
    );
    assert_eq!(temp_path("photo", TransformKind::Cleanup), "photo.cleanup.tmp.png");
    assert_eq!(temp_path("", TransformKind::Gray), ".gray.tmp.png");
}

#[test]
fn stem_ends_at_the_last_dot_of_the_file_name() {
    assert_eq!(find_stem_end("photo.png"), Some(5));
    assert_eq!(find_stem_end("dir/photo.png"), Some(9));
    assert_eq!(find_stem_end("/photo.png"), Some(6));
    assert_eq!(find_stem_end("a.tar.gz"), Some(5));
    assert_eq!(find_stem_end("a."), Some(1));
    assert_eq!(find_stem_end("..."), Some(2));
    assert_eq!(find_stem_end("dir.d/photo.png"), Some(11));
}

#[test]
fn stem_end_counts_characters() {
    assert_eq!(find_stem_end("é.png"), Some(1));
    assert_eq!(find_stem_end("图片/照片.png"), Some(5));
}

#[test]
fn names_without_an_extension_are_their_own_stem() {
    assert_eq!(find_stem_end("photo"), Some(5));
    assert_eq!(find_stem_end("dir.d/photo"), Some(11));
    assert_eq!(find_stem_end("/pics/cat"), Some(9));
    assert_eq!(find_stem_end(".hidden"), Some(7));
    assert_eq!(find_stem_end("dir/.hidden"), Some(11));
}

#[test]
fn paths_that_name_no_file_have_no_stem() {
    assert_eq!(find_stem_end(""), None);
    assert_eq!(find_stem_end("/"), None);
    assert_eq!(find_stem_end("//"), None);
    assert_eq!(find_stem_end("."), None);
    assert_eq!(find_stem_end(".."), None);
    assert_eq!(find_stem_end("dir/."), None);
    assert_eq!(find_stem_end("dir/.."), None);
    assert_eq!(find_stem_end("dir/../"), None);
}

#[test]
fn separators_at_the_end_do_not_belong_to_the_file_name() {
    assert_eq!(find_stem_end("dir/"), Some(3));
    assert_eq!(find_stem_end("dir/cat//"), Some(7));
    assert_eq!(find_stem_end("dir/photo.png/"), Some(9));
    assert_eq!(find_stem_end("dir/a.tar.gz///"), Some(9));
}

#[test]
fn hidden_names_with_an_extension_have_a_stem_end() {
    assert_eq!(find_stem_end(".hidden.png"), Some(7));
    assert_eq!(find_stem_end("dir/..x"), Some(5));
}

fn names(list: &[&str]) -> Vec<String> {
    list.iter().map(|s| s.to_string()).collect()
}

#[test]
fn sweep_paths_name_what_the_transforms_write_and_the_names_by_stem() {
    assert_eq!(
        sweep_paths("/a/b/photo.jpg"),
        names(&[
            "/a/b/photo.jpg.gray.tmp.png",
            "/a/b/photo.jpg.threshold.tmp.png",
            "/a/b/photo.jpg.cleanup.tmp.png",
            "/a/b/photo.gray.tmp.png",
            "/a/b/photo.threshold.tmp.png",
            "/a/b/photo.cleanup.tmp.png",
        ])
    );
    assert_eq!(
        sweep_paths("é.png"),
        names(&[
            "é.png.gray.tmp.png",
            "é.png.threshold.tmp.png",
            "é.png.cleanup.tmp.png",
            "é.gray.tmp.png",
            "é.threshold.tmp.png",
            "é.cleanup.tmp.png",
        ])
    );
}

#[test]
fn sweep_paths_hold_the_scratch_file_of_every_transform() {
    for original in ["/a/b/photo.jpg", "/pics/cat", "a.png", ".hidden", "dir/", "..", "x"] {
        let swept = sweep_paths(original);
        for kind in [TransformKind::Gray, TransformKind::Threshold, TransformKind::Cleanup] {
            assert!(swept.contains(&temp_path(original, kind)));
        }
        assert!(!swept.contains(&original.to_string()));
    }
}

#[test]
fn sweep_paths_of_a_name_without_extension() {
    assert_eq!(
        sweep_paths("/pics/cat"),
        names(&[
            "/pics/cat.gray.tmp.png",
            "/pics/cat.threshold.tmp.png",
            "/pics/cat.cleanup.tmp.png",
        ])
    );
    assert_eq!(
        sweep_paths("/a/b/.hidden"),
        names(&[
            "/a/b/.hidden.gray.tmp.png",
            "/a/b/.hidden.threshold.tmp.png",
            "/a/b/.hidden.cleanup.tmp.png",
        ])
    );
}

#[test]
fn sweep_paths_of_a_path_that_ends_in_a_separator() {
    assert_eq!(
        sweep_paths("dir/a.png/"),
        names(&[
            "dir/a.png/.gray.tmp.png",
            "dir/a.png/.threshold.tmp.png",
            "dir/a.png/.cleanup.tmp.png",
            "dir/a.gray.tmp.png",
            "dir/a.threshold.tmp.png",
            "dir/a.cleanup.tmp.png",
        ])
    );
    assert_eq!(
        sweep_paths("dir/cat/"),
        names(&[
            "dir/cat/.gray.tmp.png",
            "dir/cat/.threshold.tmp.png",
            "dir/cat/.cleanup.tmp.png",
            "dir/cat.gray.tmp.png",
            "dir/cat.threshold.tmp.png",
            "dir/cat.cleanup.tmp.png",
        ])
    );
}

#[test]
fn sweep_paths_of_a_path_that_names_no_file() {
    assert_eq!(
        sweep_paths(".."),
        names(&["...gray.tmp.png", "...threshold.tmp.png", "...cleanup.tmp.png"])
    );
}

#[test]
fn sweep_paths_without_an_original_are_none() {
    assert_eq!(sweep_paths(""), Vec::<String>::new());
}

#[test]
fn names_by_stem_agree_with_the_path_functions_of_std() {
    let originals = [
        "photo.png",
        "/photo.png",
        "dir/photo.png",
        "/a/b/c.tar.gz",
        "dir/a.png/",
        "dir.d/.hidden.png",
        "a.",
        "...",
    ];
    for original in originals {
        let path = std::path::Path::new(original);
        let stem = path.file_stem().unwrap().to_str().unwrap();
        assert!(path.extension().is_some());
        let swept = sweep_paths(original);
        assert_eq!(swept.len(), 6);
        let kinds = [TransformKind::Gray, TransformKind::Threshold, TransformKind::Cleanup];
        for (i, kind) in kinds.into_iter().enumerate() {
            let by_std = path.parent().unwrap().join(format!("{}{}", stem, suffix(kind)));
            assert_eq!(swept[3 + i], by_std.to_str().unwrap());
        }
    }
}

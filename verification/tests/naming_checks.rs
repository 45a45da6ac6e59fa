use speedy::naming::{get_file_name, next_free_name, split_stem_ext};

#[test]
fn file_name_is_last_path_segment() {
    assert_eq!(
        get_file_name("https://example.com/files/video.mp4").as_str(),
        "video.mp4"
    );
    assert_eq!(get_file_name("http://host/a/b/c.bin").as_str(), "c.bin");
}

#[test]
fn file_name_strips_query_string() {
    assert_eq!(
        get_file_name("https://example.com/video.mp4?token=abc&x=1").as_str(),
        "video.mp4"
    );
}

#[test]
fn file_name_without_slash_is_whole_input() {
    assert_eq!(get_file_name("plainname").as_str(), "plainname");
}

#[test]
fn empty_last_segment_falls_back_to_download() {
    assert_eq!(get_file_name("https://example.com/dir/").as_str(), "download");
    assert_eq!(get_file_name("https://example.com/dir/?q=1").as_str(), "download");
    assert_eq!(get_file_name("").as_str(), "download");
}

#[test]
fn stem_and_extension_split_at_final_dot() {
    let (stem, ext) = split_stem_ext("archive.tar.gz");
    assert_eq!(stem.as_str(), "archive.tar");
    assert_eq!(ext.as_str(), "gz");

    let (stem, ext) = split_stem_ext("noext");
    assert_eq!(stem.as_str(), "noext");
    assert_eq!(ext.as_str(), "");

    let (stem, ext) = split_stem_ext(".bashrc");
    assert_eq!(stem.as_str(), ".bashrc");
    assert_eq!(ext.as_str(), "");
}

#[test]
fn first_duplicate_gets_suffix_one() {
    let taken = vec!["video.mp4".to_string()];
    let (name, k) = next_free_name("video.mp4", &taken);
    assert_eq!(name.as_str(), "video (1).mp4");
    assert_eq!(k, 1);
}

#[test]
fn suffix_skips_taken_duplicates() {
    let taken = vec![
        "video.mp4".to_string(),
        "video (1).mp4".to_string(),
        "video (2).mp4".to_string(),
    ];
    let (name, k) = next_free_name("video.mp4", &taken);
    assert_eq!(name.as_str(), "video (3).mp4");
    assert_eq!(k, 3);
}

#[test]
fn suffix_without_extension() {
    let taken = vec!["notes".to_string()];
    let (name, k) = next_free_name("notes", &taken);
    assert_eq!(name.as_str(), "notes (1)");
    assert_eq!(k, 1);
}

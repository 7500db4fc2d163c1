use pdf_core::render::{
    first_existing, library_file_name, library_places, missing_library_text, Platform, Root,
};

#[test]
fn the_library_is_named_after_the_platform() {
    assert_eq!(library_file_name(Platform::Windows), "pdfium.dll");
    assert_eq!(library_file_name(Platform::MacOs), "libpdfium.dylib");
    assert_eq!(library_file_name(Platform::Other), "libpdfium.so");
}

#[test]
fn the_places_are_tried_in_order() {
    let all = library_places(true, true);
    let seen: Vec<(Root, Vec<&str>)> =
        all.iter().map(|place| (place.root, place.folders.clone())).collect();
    assert_eq!(
        seen,
        vec![
            (Root::Resources, vec![]),
            (Root::Resources, vec!["resources"]),
            (Root::Resources, vec!["bin"]),
            (Root::Working, vec![]),
            (Root::Working, vec!["resources"]),
            (Root::Working, vec!["src-tauri"]),
            (Root::Working, vec!["src-tauri", "resources"]),
            (Root::Working, vec!["..", "src-tauri"]),
            (Root::Working, vec!["..", "src-tauri", "resources"]),
            (Root::Executable, vec![]),
            (Root::Executable, vec!["resources"]),
        ]
    );
}

#[test]
fn unknown_directories_are_left_out() {
    assert_eq!(library_places(false, false).len(), 3);
    let without_working = library_places(false, true);
    assert_eq!(without_working.len(), 5);
    assert_eq!(without_working[3].root, Root::Executable);
    let without_executable = library_places(true, false);
    assert_eq!(without_executable.len(), 9);
    assert_eq!(without_executable[8].root, Root::Working);
}

#[test]
fn the_first_place_that_exists_wins() {
    assert_eq!(first_existing(&vec![false, true, false, true]), Some(1));
    assert_eq!(first_existing(&vec![true]), Some(0));
    assert_eq!(first_existing(&vec![false, false]), None);
    assert_eq!(first_existing(&Vec::new()), None);
}

#[test]
fn a_missing_library_is_reported_with_every_path_tried() {
    let tried =
        vec![String::from("\"/opt/app/libpdfium.so\""), String::from("\"/work/libpdfium.so\"")];
    assert_eq!(
        missing_library_text("libpdfium.so", &tried),
        "找不到 libpdfium.so。请下载并放置在以下任一位置：\n- \"/opt/app/libpdfium.so\"\n- \"/work/libpdfium.so\"\n"
    );
    assert_eq!(
        missing_library_text("pdfium.dll", &Vec::new()),
        "找不到 pdfium.dll。请下载并放置在以下任一位置：\n"
    );
}

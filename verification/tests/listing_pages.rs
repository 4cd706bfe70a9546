use allviewer::config::{ConfigError, Filters, ResourceConfig};
use allviewer::image::{ImageInfo, ImageListResult};
use allviewer::listing::{
    get_image_list, get_paginated_images, ListingError, ListingJob, DEFAULT_MAX_DEPTH,
};
use allviewer::order::sort_newest_first;
use allviewer::scan::{DirEntry, DirRead, FileStat};

fn file(dir: &str, name: &str, modified: u64) -> DirEntry {
    DirEntry::File {
        path: format!("{}/{}", dir, name),
        name: name.to_string(),
        stat: FileStat::Known { size: 100 + modified, modified },
    }
}

fn dir(parent: &str, name: &str) -> DirEntry {
    DirEntry::Directory { path: format!("{}/{}", parent, name) }
}

fn image(name: &str, modified: u64) -> ImageInfo {
    ImageInfo {
        path: format!("/x/{}", name),
        name: name.to_string(),
        size: 1,
        modified,
        extension: "png".to_string(),
    }
}

fn config_with(paths: &[&str]) -> ResourceConfig {
    ResourceConfig {
        id: "test".to_string(),
        name: "Test".to_string(),
        filters: Filters {
            include_paths: paths.iter().map(|p| p.to_string()).collect(),
            exclude_paths: vec!["/ignored".to_string()],
        },
    }
}

fn drive(mut job: ListingJob, fs: &dyn Fn(&str) -> DirRead) -> (ImageListResult, Vec<String>) {
    let mut read = Vec::new();
    while let Some(path) = job.awaiting().cloned() {
        assert!(read.len() < 10_000);
        let listing = fs(&path);
        read.push(path);
        job.supply(listing);
    }
    (job.finish().unwrap(), read)
}

fn list(
    paths: &[&str],
    max_depth: Option<usize>,
    fs: &dyn Fn(&str) -> DirRead,
) -> (ImageListResult, Vec<String>) {
    drive(get_image_list(Ok(config_with(paths)), max_depth).unwrap(), fs)
}

fn names(listing: &ImageListResult) -> Vec<&str> {
    listing.images.iter().map(|i| i.name.as_str()).collect()
}

fn ten() -> ImageListResult {
    ImageListResult {
        images: (0..10).map(|k| image(&format!("{}.png", k), 100 - k)).collect(),
        total: 10,
        folders: vec!["/x".to_string()],
    }
}

#[test]
fn no_configured_folder_is_an_error() {
    let job = get_image_list(Ok(config_with(&[])), None);
    assert_eq!(job.err(), Some(ListingError::NoRootsConfigured));
    let job = get_image_list(Ok(ResourceConfig::default()), Some(1));
    assert_eq!(job.err(), Some(ListingError::NoRootsConfigured));
}

#[test]
fn configuration_that_failed_to_load_is_passed_on() {
    for e in [
        ConfigError::MkdirFailed,
        ConfigError::SerializeFailed,
        ConfigError::WriteFailed,
        ConfigError::ReadFailed,
        ConfigError::ParseFailed,
    ] {
        assert_eq!(get_image_list(Err(e), None).err(), Some(ListingError::Config(e)));
    }
}

#[test]
fn job_awaits_the_first_folder_and_is_not_finished() {
    let job = get_image_list(Ok(config_with(&["/a", "/b"])), None).unwrap();
    assert_eq!(job.awaiting(), Some(&"/a".to_string()));
    assert_eq!(job.finish(), None);
}

#[test]
fn images_are_listed_newest_first() {
    let (listing, _) = list(&["/a"], None, &|_| {
        DirRead::Entries(vec![file("/a", "t2.png", 20), file("/a", "t1.png", 10), file("/a", "t3.png", 30)])
    });
    assert_eq!(names(&listing), vec!["t3.png", "t2.png", "t1.png"]);
    assert_eq!(listing.total, 3);
    assert_eq!(listing.folders, vec!["/a".to_string()]);
    assert_eq!(listing.images[0].modified, 30);
    assert_eq!(listing.images[0].size, 130);
    assert_eq!(listing.images[0].path, "/a/t3.png");
    assert_eq!(listing.images[0].extension, "png");
}

#[test]
fn images_of_one_time_keep_the_order_of_the_walk() {
    let (listing, _) = list(&["/a", "/b"], None, &|path| match path {
        "/a" => DirRead::Entries(vec![file("/a", "a1.png", 5), file("/a", "a2.png", 9), file("/a", "a3.png", 5)]),
        "/b" => DirRead::Entries(vec![file("/b", "b1.png", 5), file("/b", "b2.png", 9)]),
        _ => DirRead::NotADirectory,
    });
    assert_eq!(names(&listing), vec!["a2.png", "b2.png", "a1.png", "a3.png", "b1.png"]);
}

#[test]
fn missing_folder_is_left_out_of_the_listing() {
    let (listing, read) = list(&["/gone", "/here"], None, &|path| match path {
        "/here" => DirRead::Entries(vec![file("/here", "a.png", 1), file("/here", "b.png", 2)]),
        _ => DirRead::NotADirectory,
    });
    assert_eq!(listing.folders, vec!["/here".to_string()]);
    assert_eq!(listing.total, 2);
    assert_eq!(names(&listing), vec!["b.png", "a.png"]);
    assert_eq!(read, vec!["/gone", "/here"]);
}

#[test]
fn folder_whose_scan_fails_adds_nothing() {
    let (listing, _) = list(&["/a", "/bad", "/locked", "/c"], None, &|path| match path {
        "/a" => DirRead::Entries(vec![file("/a", "a.png", 1)]),
        "/bad" => DirRead::Entries(vec![file("/bad", "lost.png", 50), DirEntry::Failed]),
        "/locked" => DirRead::Unreadable,
        "/c" => DirRead::Entries(vec![file("/c", "c.png", 3)]),
        _ => DirRead::NotADirectory,
    });
    assert_eq!(listing.folders, vec!["/a".to_string(), "/c".to_string()]);
    assert_eq!(listing.total, 2);
    assert_eq!(names(&listing), vec!["c.png", "a.png"]);
}

#[test]
fn listing_of_failing_folders_only_is_empty_and_no_error() {
    let (listing, _) = list(&["/x", "/y"], None, &|_| DirRead::NotADirectory);
    assert_eq!(listing, ImageListResult { images: Vec::new(), total: 0, folders: Vec::new() });
}

#[test]
fn empty_folder_is_named_among_the_folders() {
    let (listing, _) = list(&["/empty"], None, &|_| DirRead::Entries(Vec::new()));
    assert_eq!(listing.folders, vec!["/empty".to_string()]);
    assert_eq!(listing.total, 0);
}

#[test]
fn depth_defaults_to_three() {
    assert_eq!(DEFAULT_MAX_DEPTH, 3);
    let deep = |path: &str| DirRead::Entries(vec![dir(path, "d"), file(path, "i.png", path.len() as u64)]);
    let (listing, read) = list(&["/r"], None, &deep);
    assert_eq!(read, vec!["/r", "/r/d", "/r/d/d", "/r/d/d/d"]);
    assert_eq!(listing.total, 4);
    let (listing, read) = list(&["/r"], Some(1), &deep);
    assert_eq!(read, vec!["/r", "/r/d"]);
    assert_eq!(listing.total, 2);
    let (listing, _) = list(&["/r"], Some(0), &deep);
    assert_eq!(listing.total, 1);
}

#[test]
fn excluded_paths_are_not_consulted() {
    let (listing, _) = list(&["/ignored"], None, &|_| DirRead::Entries(vec![file("/ignored", "a.png", 1)]));
    assert_eq!(listing.total, 1);
}

#[test]
fn finished_job_ignores_further_listings() {
    let mut job = get_image_list(Ok(config_with(&["/a"])), None).unwrap();
    job.supply(DirRead::Entries(vec![file("/a", "a.png", 1)]));
    assert_eq!(job.awaiting(), None);
    job.supply(DirRead::Entries(vec![file("/a", "b.png", 2)]));
    let listing = job.finish().unwrap();
    assert_eq!(names(&listing), vec!["a.png"]);
}

#[test]
fn sort_puts_the_newest_first_and_keeps_ties_in_order() {
    let sorted = sort_newest_first(vec![
        image("a", 3),
        image("b", 7),
        image("c", 3),
        image("d", 9),
        image("e", 7),
        image("f", 3),
        image("g", 0),
    ]);
    let order: Vec<&str> = sorted.iter().map(|i| i.name.as_str()).collect();
    assert_eq!(order, vec!["d", "b", "e", "a", "c", "f", "g"]);
}

#[test]
fn sort_agrees_with_the_stable_sort_of_the_standard_library() {
    let mut seed: u64 = 0x2545F4914F6CDD1D;
    let mut images = Vec::new();
    for k in 0..500 {
        seed ^= seed << 13;
        seed ^= seed >> 7;
        seed ^= seed << 17;
        images.push(image(&format!("{}", k), seed % 40));
    }
    let mut expected = images.clone();
    expected.sort_by(|a, b| b.modified.cmp(&a.modified));
    assert_eq!(sort_newest_first(images), expected);
}

#[test]
fn sort_of_nothing_and_of_one() {
    assert_eq!(sort_newest_first(Vec::new()), Vec::new());
    assert_eq!(sort_newest_first(vec![image("a", 1)]), vec![image("a", 1)]);
}

#[test]
fn last_page_holds_what_is_left() {
    let page = get_paginated_images(ten(), 2, 4);
    assert_eq!(names(&page), vec!["8.png", "9.png"]);
    assert_eq!(page.total, 10);
    assert_eq!(page.folders, vec!["/x".to_string()]);
}

#[test]
fn page_behind_the_end_is_empty_and_keeps_the_total() {
    let page = get_paginated_images(ten(), 3, 4);
    assert!(page.images.is_empty());
    assert_eq!(page.total, 10);
    assert_eq!(page.folders, vec!["/x".to_string()]);
}

#[test]
fn inner_pages_are_full() {
    assert_eq!(names(&get_paginated_images(ten(), 0, 4)), vec!["0.png", "1.png", "2.png", "3.png"]);
    assert_eq!(names(&get_paginated_images(ten(), 1, 4)), vec!["4.png", "5.png", "6.png", "7.png"]);
    assert_eq!(get_paginated_images(ten(), 0, 10), ten());
    assert_eq!(get_paginated_images(ten(), 0, 100), ten());
    assert_eq!(names(&get_paginated_images(ten(), 9, 1)), vec!["9.png"]);
    assert!(get_paginated_images(ten(), 10, 1).images.is_empty());
}

#[test]
fn page_of_no_items_is_empty() {
    let page = get_paginated_images(ten(), 0, 0);
    assert!(page.images.is_empty());
    assert_eq!(page.total, 10);
    let page = get_paginated_images(ten(), 5, 0);
    assert!(page.images.is_empty());
}

#[test]
fn page_numbers_beyond_the_machine_range_are_empty() {
    let page = get_paginated_images(ten(), usize::MAX, usize::MAX);
    assert!(page.images.is_empty());
    assert_eq!(page.total, 10);
    let page = get_paginated_images(ten(), usize::MAX, 2);
    assert!(page.images.is_empty());
    let page = get_paginated_images(ten(), 1, usize::MAX);
    assert!(page.images.is_empty());
    assert_eq!(get_paginated_images(ten(), 0, usize::MAX), ten());
}

#[test]
fn page_of_an_empty_listing_is_empty() {
    let empty = ImageListResult { images: Vec::new(), total: 0, folders: Vec::new() };
    let page = get_paginated_images(empty, 0, 4);
    assert_eq!(page, ImageListResult { images: Vec::new(), total: 0, folders: Vec::new() });
}

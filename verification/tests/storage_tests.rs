use x_viz::bing::BingImage;
use x_viz::storage::{
    build_save_path, cleanup_cutoff, clean_title, expired_entries, extract_date_from_filename, image_records,
    is_expired_wallpaper, is_image_file_name, listing_has_image_for_date,
    name_is_image_for_date, sanitize_filename, save_file_name, sort_newest_first, wallpaper_entry,
    LocalWallpaper,
};

fn image(title: &str, date: &str, url: &str) -> BingImage {
    BingImage {
        title: title.to_string(),
        date: date.to_string(),
        url: url.to_string(),
        url_base: String::new(),
        copyright: String::new(),
        copyright_link: String::new(),
    }
}

fn wall(date: &str, path: &str) -> LocalWallpaper {
    LocalWallpaper {
        title: String::new(),
        date: date.to_string(),
        path: path.to_string(),
        copyright: String::new(),
    }
}

#[test]
fn test_is_image_file() {
    assert!(is_image_file_name("test.jpg"));
    assert!(is_image_file_name("test.PNG"));
    assert!(!is_image_file_name("test.txt"));
    assert!(!is_image_file_name("test"));
}

#[test]
fn test_extract_date() {
    assert_eq!(
        extract_date_from_filename("2026-03-17_OHR.Test.jpg"),
        "2026-03-17"
    );
    assert_eq!(extract_date_from_filename("no_date_here"), "");
}

#[test]
fn test_clean_title() {
    assert_eq!(
        clean_title("2026-03-17_OHR.FoxSparrow_EN-US1234_UHD"),
        "FoxSparrow EN-US1234 UHD"
    );
}

#[test]
fn image_file_names_by_extension() {
    assert!(is_image_file_name("a.JpEg"));
    assert!(is_image_file_name("a.b.webp"));
    assert!(is_image_file_name("x.bmp"));
    assert!(!is_image_file_name(".jpg"));
    assert!(!is_image_file_name(".."));
    assert!(!is_image_file_name("a.jpg."));
    assert!(!is_image_file_name("jpg"));
}

#[test]
fn extract_date_needs_dashes() {
    assert_eq!(extract_date_from_filename("2026_03_17_x"), "");
    assert_eq!(extract_date_from_filename("2026-03-1"), "");
    assert_eq!(extract_date_from_filename("abcd-ef-ghij"), "abcd-ef-gh");
}

#[test]
fn clean_title_without_date_prefix() {
    assert_eq!(clean_title("OHR.Some_Title.jpg"), "Some Title");
    assert_eq!(clean_title("plain"), "plain");
    assert_eq!(clean_title("20"), "20");
}

#[test]
fn sanitize_replaces_forbidden_and_trims() {
    assert_eq!(sanitize_filename("  a/b\\c:d*e?f\"g<h>i|j  "), "a_b_c_d_e_f_g_h_i_j");
    assert_eq!(sanitize_filename("\t\n "), "");
    let once = sanitize_filename(" x: y ");
    assert_eq!(sanitize_filename(&once), once);
}

#[test]
fn save_file_name_uses_title_or_url() {
    let with_title = image("Fox: Sparrow", "2026-03-17", "https://www.bing.com/th?id=OHR.Fox.jpg&rf=1");
    assert_eq!(save_file_name(&with_title), "2026-03-17_Fox_ Sparrow.jpg");
    let no_title = image("  ", "2026-03-17", "https://www.bing.com/th?id=OHR.Fox.jpg&rf=1");
    assert_eq!(save_file_name(&no_title), "2026-03-17_OHR.Fox.jpg");
}

#[test]
fn saved_file_is_found_for_its_date() {
    let img = image("Fox", "2026-03-17", "u");
    let name = save_file_name(&img);
    assert!(name_is_image_for_date(&name, &img.date));
    let stem = &name[..name.len() - 4];
    assert_eq!(extract_date_from_filename(stem), img.date);
    assert!(!name_is_image_for_date(&name, "2026-03-18"));
    assert!(!name_is_image_for_date("2026-03-17_Fox.txt", "2026-03-17"));
}

#[test]
fn expiry_compares_dates() {
    assert!(is_expired_wallpaper("2026-03-01_Fox", "2026-03-17"));
    assert!(!is_expired_wallpaper("2026-03-17_Fox", "2026-03-17"));
    assert!(!is_expired_wallpaper("2026-04-01_Fox", "2026-03-17"));
    assert!(!is_expired_wallpaper("Fox", "2026-03-17"));
}

#[test]
fn wallpaper_entry_reads_name() {
    let w = wallpaper_entry("2026-03-17_OHR.Fox_EN", "/p/2026-03-17_OHR.Fox_EN.jpg");
    assert_eq!(w.title, "Fox EN");
    assert_eq!(w.date, "2026-03-17");
    assert_eq!(w.path, "/p/2026-03-17_OHR.Fox_EN.jpg");
    assert_eq!(w.copyright, "");
}

#[test]
fn gallery_sorted_newest_first_and_stable() {
    let items = vec![
        wall("2026-03-01", "a"),
        wall("2026-03-17", "b"),
        wall("", "c"),
        wall("2026-03-17", "d"),
        wall("2026-03-05", "e"),
    ];
    let sorted = sort_newest_first(&items);
    let paths: Vec<&str> = sorted.iter().map(|w| w.path.as_str()).collect();
    assert_eq!(paths, vec!["b", "d", "e", "a", "c"]);
    assert!(sort_newest_first(&Vec::new()).is_empty());
}

#[test]
fn cleanup_cutoff_counts_days_back() {
    assert_eq!(cleanup_cutoff(1773705600, 30), Some("2026-02-15".to_string()));
    assert_eq!(cleanup_cutoff(1773705600 + 86399, 30), Some("2026-02-15".to_string()));
    assert_eq!(cleanup_cutoff(0, 0), Some("1970-01-01".to_string()));
    assert_eq!(cleanup_cutoff(-1, 0), Some("1969-12-31".to_string()));
    assert_eq!(cleanup_cutoff(i64::MIN, 1), None);
    assert_eq!(cleanup_cutoff(1773705600, u32::MAX), None);
}

#[test]
fn expiry_against_computed_cutoff() {
    let cutoff = cleanup_cutoff(1773705600, 30).unwrap();
    assert!(is_expired_wallpaper("2026-02-14_Old", &cutoff));
    assert!(!is_expired_wallpaper("2026-02-15_Kept", &cutoff));
}

#[test]
fn clean_title_drops_only_a_date_prefix() {
    assert_eq!(clean_title("2001_A_Space_Odyssey"), "2001 A Space Odyssey");
    assert_eq!(clean_title("2026-03-17_Fox"), "Fox");
    assert_eq!(clean_title("2026-03-17x_Fox"), "2026-03-17x Fox");
    assert_eq!(clean_title("2026-03-17_"), "");
}

#[test]
fn save_path_joins_storage_path_and_name() {
    let img = image("Fox Sparrow", "2026-03-17", "/th?id=OHR.Fox_UHD.jpg&rf=1");
    assert_eq!(
        build_save_path("/w", &img),
        std::path::PathBuf::from("/w/2026-03-17_Fox Sparrow.jpg")
    );
    let untitled = image("", "2026-03-17", "/th?id=OHR.Fox_UHD.jpg&rf=1");
    assert_eq!(
        build_save_path("/w", &untitled),
        std::path::PathBuf::from("/w/2026-03-17_OHR.Fox_UHD.jpg")
    );
}

#[test]
fn longer_retention_removes_no_more() {
    let now: i64 = 1773705600;
    let names = ["2026-01-01_A", "2026-02-10_B", "2026-02-15_C", "2026-03-10_D", "2026-03-17_E", "Fox"];
    let spans: [u32; 5] = [0, 1, 7, 30, 90];
    for i in 0..spans.len() {
        for j in i..spans.len() {
            let shorter = cleanup_cutoff(now, spans[i]).unwrap();
            let longer = cleanup_cutoff(now, spans[j]).unwrap();
            assert!(longer <= shorter);
            for n in names.iter() {
                if is_expired_wallpaper(n, &longer) {
                    assert!(is_expired_wallpaper(n, &shorter));
                }
            }
        }
    }
    assert_eq!(cleanup_cutoff(now, 90), Some("2025-12-17".to_string()));
    assert!(!is_expired_wallpaper("2026-03-17_E", &cleanup_cutoff(now, 0).unwrap()));
}

fn strings(items: &[&str]) -> Vec<String> {
    items.iter().map(|s| s.to_string()).collect()
}

#[test]
fn listing_filters_image_entries() {
    let names = strings(&["2026-03-17_Fox.jpg", "notes.txt", "2026-03-01_Owl.PNG", "2026-02-01_Cat.jpg.part"]);
    let stems = strings(&["2026-03-17_Fox", "notes", "2026-03-01_Owl", "2026-02-01_Cat.jpg"]);
    let paths = strings(&["/w/2026-03-17_Fox.jpg", "/w/notes.txt", "/w/2026-03-01_Owl.PNG", "/w/2026-02-01_Cat.jpg.part"]);
    let records = image_records(&names, &stems, &paths);
    assert_eq!(records.len(), 2);
    assert_eq!(records[0].title, "Fox");
    assert_eq!(records[0].date, "2026-03-17");
    assert_eq!(records[0].path, "/w/2026-03-17_Fox.jpg");
    assert_eq!(records[1].title, "Owl");
    assert_eq!(records[1].path, "/w/2026-03-01_Owl.PNG");

    assert_eq!(expired_entries(&names, &stems, "2026-03-10"), vec![2]);
    assert_eq!(expired_entries(&names, &stems, "2026-03-18"), vec![0, 2]);
    assert_eq!(expired_entries(&names, &stems, "2026-01-01"), Vec::<usize>::new());

    assert!(listing_has_image_for_date(&names, "2026-03-01"));
    assert!(!listing_has_image_for_date(&names, "2026-02-01"));
    assert!(!listing_has_image_for_date(&Vec::new(), "2026-03-17"));
}

#[test]
fn retention_cutoffs_in_five_digit_years() {
    let now: i64 = 253_439_020_800;
    let shorter = cleanup_cutoff(now, 0).unwrap();
    let longer = cleanup_cutoff(now, 400).unwrap();
    assert_eq!(shorter, "+10001-03-01");
    assert_eq!(longer, "+10000-01-26");
    assert!(longer < shorter);
}

use photolabeler::backend::directory::{InsertDirectory, OptionDirectory};
use photolabeler::backend::image::OptionImage;
use photolabeler::backend::{classify_entry, EntryKind};
use photolabeler::db;
use photolabeler::error::{DbFailure, Error};
use photolabeler::query::directory::Directory;
use photolabeler::query::image::Image;
use photolabeler::routes::directory::{new_dir_id, selected_ids};
use photolabeler::routes::home::{ImageFilter, NewFolder};
use photolabeler::routes::{content_type, directory_url, image_headers, image_url};
use photolabeler::state::directory::{child_directory, dir_forest, plan_root_directory, DirTree};
use photolabeler::state::image::{candidate_image_name, plan_image_name, UpdateImage};
use photolabeler::state::{database_scheme, uses_sqlite};

fn s(x: &str) -> String {
    x.to_string()
}

#[test]
fn error_status_and_message() {
    assert_eq!(Error::NoSuchEntity.status(), 404);
    assert_eq!(Error::NoSuchEntity.message(), "Could not find row with this id.");
    assert_eq!(Error::StatusCode(418, s("teapot")).status(), 418);
    assert_eq!(Error::StatusCode(418, s("teapot")).message(), "teapot");
    assert_eq!(Error::Database(s("locked")).status(), 500);
    assert_eq!(Error::Database(s("locked")).message(), "Database Error: locked");
    assert_eq!(Error::Multipart(s("cut")).status(), 400);
    assert_eq!(Error::Multipart(s("cut")).message(), "Multipart Error: cut");
    assert_eq!(Error::Io(s("gone")).status(), 500);
    assert_eq!(Error::Io(s("gone")).message(), "IO error: gone");
}

#[test]
fn database_failures_map_to_errors() {
    assert_eq!(Error::from_db(DbFailure::RowNotFound), Error::NoSuchEntity);
    assert_eq!(Error::from_db(DbFailure::Other(s("busy"))), Error::Database(s("busy")));
    assert_eq!(Error::bad_request(s("no")), Error::StatusCode(400, s("no")));
}

#[test]
fn image_name_kept_when_free() {
    assert_eq!(plan_image_name("cat.jpg", &vec![s("dog.jpg")]), Ok(s("cat.jpg")));
}

#[test]
fn image_name_takes_first_free_numbered_name() {
    let taken = vec![s("cat.jpg"), s("cat_2.jpg"), s("cat_4.jpg")];
    assert_eq!(plan_image_name("cat.jpg", &taken), Ok(s("cat_3.jpg")));
    let taken = vec![s("a.b.png"), s("a.b_2.png")];
    assert_eq!(plan_image_name("a.b.png", &taken), Ok(s("a.b_3.png")));
}

#[test]
fn image_name_never_collides() {
    let mut taken = vec![];
    for _ in 0..12 {
        let name = plan_image_name("p.png", &taken).unwrap();
        assert!(!taken.contains(&name));
        taken.push(name);
    }
    assert!(taken.contains(&s("p_12.png")));
}

#[test]
fn image_name_without_extension_is_refused() {
    assert_eq!(
        plan_image_name("README", &vec![]),
        Err(Error::StatusCode(400, s("Image README has no file extension")))
    );
}

#[test]
fn image_name_with_unknown_extension_is_refused() {
    assert_eq!(
        plan_image_name("x.qqqzzz", &vec![]),
        Err(Error::StatusCode(400, s("MIME Type couldn't be determined for x.qqqzzz")))
    );
}

#[test]
fn candidate_names_are_numbered() {
    assert_eq!(candidate_image_name("cat", "jpg", 2), "cat_2.jpg");
    assert_eq!(candidate_image_name("", "png", 10), "_10.png");
}

#[test]
fn update_image_replaces_given_fields() {
    let img = Image { id: 1, directory_id: 2, name: s("a.png"), notes: s("old"), created: 7 };
    let (new, moves) = UpdateImage { directory_id: Some(3), name: None, notes: Some(s("new")) }.apply(img);
    assert!(moves);
    assert_eq!(new, Image { id: 1, directory_id: 3, name: s("a.png"), notes: s("new"), created: 7 });

    let img = Image { id: 1, directory_id: 2, name: s("a.png"), notes: s("old"), created: 7 };
    let (new, moves) = UpdateImage { directory_id: Some(2), name: Some(s("a.png")), notes: None }.apply(img);
    assert!(!moves);
    assert_eq!(new.notes, "old");
}

#[test]
fn root_directory_named_after_its_path() {
    let d = plan_root_directory(s("/home/me/pics"), None).unwrap();
    assert_eq!(d, Directory { id: 0, parent_id: None, name: s("pics"), path: s("/home/me/pics") });
    let d = plan_root_directory(s("/home/me/pics/"), Some(s("Pictures"))).unwrap();
    assert_eq!(d.name, "Pictures");
}

#[test]
fn root_directory_without_last_component_is_refused() {
    assert_eq!(plan_root_directory(s("/"), None), Err(Error::StatusCode(400, s("Invalid Path"))));
    assert_eq!(plan_root_directory(s("a/.."), Some(s("x"))), Err(Error::StatusCode(400, s("Invalid Path"))));
}

#[test]
fn child_directory_lies_inside_its_parent() {
    let parent = Directory { id: 4, parent_id: None, name: s("p"), path: s("/p") };
    let c = child_directory(&parent, s("kids"));
    assert_eq!(c, Directory { id: 0, parent_id: Some(4), name: s("kids"), path: s("/p/kids") });
}

fn dir(id: i64, parent: Option<i64>) -> Directory {
    Directory { id, parent_id: parent, name: format!("d{id}"), path: format!("/d{id}") }
}

#[test]
fn forest_lists_every_directory_under_its_root() {
    let all = vec![dir(1, None), dir(2, Some(1)), dir(3, Some(2)), dir(4, None), dir(5, Some(1)), dir(6, Some(9))];
    let forest = dir_forest(&all);
    let leaf = |d: Directory| DirTree { dir: d, children: vec![] };
    assert_eq!(
        forest,
        vec![
            DirTree {
                dir: dir(1, None),
                children: vec![
                    DirTree { dir: dir(2, Some(1)), children: vec![leaf(dir(3, Some(2)))] },
                    leaf(dir(5, Some(1))),
                ],
            },
            leaf(dir(4, None)),
        ]
    );
    assert!(dir_forest(&vec![]).is_empty());
}

#[test]
fn forest_reaches_the_deepest_directory() {
    let mut all = vec![dir(0, None)];
    for i in 1..6 {
        all.push(dir(i, Some(i - 1)));
    }
    let forest = dir_forest(&all);
    let mut t = &forest[0];
    let mut depth = 0;
    while let Some(c) = t.children.first() {
        t = c;
        depth += 1;
    }
    assert_eq!(depth, 5);
}

#[test]
fn checkbox_selection() {
    let entries = vec![(s("1"), s("on")), (s("2"), s("off")), (s("abc"), s("on")), (s("-3"), s("on")), (s("new_dir_id"), s("7"))];
    assert_eq!(selected_ids(&entries), vec![1, -3]);
    assert_eq!(new_dir_id(&entries), Ok(7));
    assert_eq!(
        new_dir_id(&vec![(s("1"), s("on"))]),
        Err(Error::StatusCode(400, s("Missing new_dir_id.")))
    );
    assert_eq!(
        new_dir_id(&vec![(s("new_dir_id"), s("x"))]),
        Err(Error::StatusCode(400, s("Missing new_dir_id.")))
    );
}

#[test]
fn label_filter_and_folder_name() {
    assert_eq!(ImageFilter { labels: Some(s("cat,dog")) }.label_names(), Some(vec![s("cat"), s("dog")]));
    assert_eq!(ImageFilter { labels: None }.label_names(), None);
    assert_eq!(NewFolder { path: s("/x"), name: s("") }.chosen_name(), None);
    assert_eq!(NewFolder { path: s("/x"), name: s("X") }.chosen_name(), Some(s("X")));
}

#[test]
fn links_to_pages() {
    assert_eq!(directory_url(12), "/dir/12");
    assert_eq!(directory_url(-5), "/dir/-5");
    assert_eq!(image_url(3), "/3");
    let u = directory_url(987654321);
    assert_eq!(u["/dir/".len()..].parse::<i64>().unwrap(), 987654321);
}

#[test]
fn content_type_is_guessed_from_the_extension() {
    assert_eq!(content_type("/p/cat.png"), Ok(s("image/png")));
    assert_eq!(content_type("/p/cat.JPG"), Ok(s("image/jpeg")));
    assert_eq!(
        content_type("/p/noext"),
        Err(Error::StatusCode(400, s("MIME Type couldn't be determined")))
    );
}

#[test]
fn image_headers_with_and_without_date() {
    let h = image_headers("/p/cat.png", Some((0, 0))).unwrap();
    assert_eq!(
        h,
        vec![
            (s("content-type"), s("image/png")),
            (s("content-disposition"), s("inline; filename=\"/p/cat.png\"")),
            (s("last-modified"), s("Thu, 01 Jan 1970 00:00:00 GMT")),
        ]
    );
    let h = image_headers("/p/cat.png", None).unwrap();
    assert_eq!(h.len(), 2);
    assert!(image_headers("/p/cat", None).is_err());
}

#[test]
fn entries_found_on_disk() {
    assert_eq!(classify_entry(true, false, "/p/sub"), EntryKind::Directory);
    assert_eq!(classify_entry(false, true, "/p/a.jpeg"), EntryKind::Image);
    assert_eq!(classify_entry(false, true, "/p/a.txt"), EntryKind::Other);
    assert_eq!(classify_entry(false, true, "/p/a"), EntryKind::Other);
    assert_eq!(classify_entry(false, false, "/p/a.png"), EntryKind::Other);
}

#[test]
fn insert_directory_form() {
    let parent = db::directory::Directory::from_row(3, None, s("p"), s("/p"));
    let d = InsertDirectory { path: s("sub") }.new_directory(Some(&parent)).unwrap();
    assert_eq!(d.id(), 0);
    assert_eq!(d.parent_id, Some(3));
    assert_eq!(d.name(), "sub");
    assert_eq!(d.path(), "/p/sub");
    let d = InsertDirectory { path: s("/data/pics") }.new_directory(None).unwrap();
    assert_eq!(d.name(), "pics");
    assert_eq!(d.parent_id, None);
    assert!(InsertDirectory { path: s("/") }.new_directory(None).is_none());
}

#[test]
fn edit_directory_form() {
    let dir = db::directory::Directory::from_row(5, None, s("old"), s("/old"));
    let parent = db::directory::Directory::from_row(1, None, s("p"), s("/p"));
    let (d, mv) = OptionDirectory { parent_id: Some(1), name: Some(s("new")), path: None }.apply(dir.clone(), Some(&parent));
    assert_eq!(d.name(), "new");
    assert_eq!(d.path(), "/p/new");
    assert_eq!(d.parent_id, None);
    assert_eq!(mv, Some((s("/old"), s("/p/new"))));
    let (d, mv) = OptionDirectory { parent_id: None, name: None, path: Some(s("/elsewhere")) }.apply(dir.clone(), None);
    assert_eq!(d.path(), "/elsewhere");
    assert_eq!(mv, Some((s("/old"), s("/elsewhere"))));
    let (d, mv) = OptionDirectory { parent_id: None, name: None, path: Some(s("/old")) }.apply(dir.clone(), None);
    assert_eq!(d.path(), "/old");
    assert_eq!(mv, None);
    let child = db::directory::Directory::from_row(6, Some(5), s("c"), s("/old/c"));
    let (d, mv) = OptionDirectory { parent_id: None, name: None, path: Some(s("/x")) }.apply(child, None);
    assert_eq!(d.path(), "/old/c");
    assert_eq!(mv, None);
}

#[test]
fn edit_image_form() {
    let img = db::image::Image::from_row(1, 2, s("a.png"), s("n"));
    let (i, moved, status) = OptionImage { directory_id: None, name: None, notes: Some(s("m")) }.apply(img);
    assert!(!moved);
    assert_eq!(status, 204);
    assert_eq!(i.notes(), "m");
    let img = db::image::Image::from_row(1, 2, s("a.png"), s("n"));
    let (_, moved, status) = OptionImage { directory_id: Some(2), name: Some(s("a.png")), notes: Some(s("n")) }.apply(img);
    assert!(!moved);
    assert_eq!(status, 304);
    let img = db::image::Image::from_row(1, 2, s("a.png"), s("n"));
    let (i, moved, status) = OptionImage { directory_id: None, name: Some(s("b.png")), notes: None }.apply(img);
    assert!(moved);
    assert_eq!(status, 204);
    assert_eq!(i.name(), "b.png");
}

#[test]
fn database_urls() {
    assert_eq!(database_scheme("sqlite:./dev.sqlite?mode=rwc"), "sqlite");
    assert_eq!(database_scheme("nocolon"), "nocolon");
    assert!(uses_sqlite("sqlite::memory:"));
    assert!(!uses_sqlite("postgres://x"));
}

#[test]
fn stored_upload_is_served_with_its_upload_mime() {
    let taken = vec![s("cat.png")];
    let name = plan_image_name("cat.png", &taken).unwrap();
    assert_eq!(name, "cat_2.png");
    let path = photolabeler::paths::join_path("/photos", &name);
    assert_eq!(content_type(&path), Ok(s("image/png")));
}

#[test]
fn dot_named_upload_is_stored_but_has_no_served_type() {
    assert_eq!(plan_image_name(".png", &vec![]), Ok(s(".png")));
    let path = photolabeler::paths::join_path("/photos", ".png");
    assert!(content_type(&path).is_err());
    assert_eq!(plan_image_name(".png", &vec![s(".png")]), Ok(s("_2.png")));
}

#[test]
fn missing_row_is_answered_not_found() {
    let e = Error::from_db(DbFailure::RowNotFound);
    assert_eq!((e.status(), e.message()), (404, s("Could not find row with this id.")));
    let e = Error::from_db(DbFailure::Other(s("disk full")));
    assert_eq!((e.status(), e.message()), (500, s("Database Error: disk full")));
}

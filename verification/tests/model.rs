use photolabeler::db;
use photolabeler::db::directory::ParentWalk;
use photolabeler::db::image::{insert_batches, INSERT_BATCH};
use photolabeler::query;
use photolabeler::query::get_image_path;

#[test]
fn query_records_start_unstored() {
    let d = query::directory::Directory::new(Some(3), "cats".to_string(), "/p/cats".to_string());
    assert_eq!(d.id, 0);
    assert_eq!(d.parent_id, Some(3));
    assert_eq!(d.name, "cats");
    assert_eq!(d.path, "/p/cats");
    let l = query::label::Label::new("sunset".to_string());
    assert_eq!(l.id, 0);
    assert_eq!(l.name, "sunset");
}

#[test]
fn query_image_new_reads_the_clock() {
    let i = query::image::Image::new(5, "a.jpg".to_string(), "note".to_string());
    assert_eq!(i.id, 0);
    assert_eq!(i.directory_id, 5);
    assert_eq!(i.name, "a.jpg");
    assert_eq!(i.notes, "note");
    let now = std::time::SystemTime::now()
        .duration_since(std::time::UNIX_EPOCH)
        .unwrap()
        .as_secs() as i64;
    assert!(i.created > 1_600_000_000);
    assert!(i.created <= now);
    let j = query::image::Image::with_created(5, "a.jpg".to_string(), String::new(), 17);
    assert_eq!(j.created, 17);
}

#[test]
fn image_path_joins_directory_and_name() {
    let mut d = query::directory::Directory::new(None, "photos".to_string(), "/srv/photos".to_string());
    d.id = 9;
    let i = query::image::Image::with_created(9, "cat.png".to_string(), String::new(), 0);
    assert_eq!(get_image_path(&i, &d), "/srv/photos/cat.png");
}

#[test]
fn db_records_and_getters() {
    let mut d = db::directory::Directory::new(None, "root".to_string(), "/root".to_string());
    assert_eq!(d.id(), 0);
    assert_eq!(d.name(), "root");
    assert_eq!(d.path(), "/root");
    d.record_insert(12);
    assert_eq!(d.id(), 12);
    let mut i = db::image::Image::new(12, "x.gif".to_string(), "n".to_string());
    assert_eq!(*i.id(), 0);
    assert_eq!(*i.directory_id(), 12);
    assert_eq!(i.name(), "x.gif");
    assert_eq!(i.notes(), "n");
    i.record_insert(4);
    assert_eq!(*i.id(), 4);
    assert_eq!(i.path(&d), "/root/x.gif");
    let l = db::label::Label::new("red".to_string());
    assert_eq!(*l.id(), 0);
    assert_eq!(l.name(), "red");
    let l2 = db::label::Label::from_row(3, "blue".to_string());
    assert_eq!(*l2.id(), 3);
}

#[test]
fn parent_walk_builds_the_chain_from_the_root() {
    let root = db::directory::Directory::from_row(1, None, "r".into(), "/r".into());
    let mid = db::directory::Directory::from_row(2, Some(1), "m".into(), "/r/m".into());
    let leaf = db::directory::Directory::from_row(3, Some(2), "l".into(), "/r/m/l".into());
    let mut walk = ParentWalk::start(leaf.clone());
    assert_eq!(walk.next_lookup(), Some(2));
    walk.record(mid.clone());
    assert_eq!(walk.next_lookup(), Some(1));
    walk.record(root.clone());
    assert_eq!(walk.next_lookup(), None);
    assert_eq!(walk.finish(), vec![root.clone(), mid, leaf]);

    let walk = ParentWalk::start(root.clone());
    assert_eq!(walk.next_lookup(), None);
    assert_eq!(walk.finish(), vec![root]);
}

#[test]
fn insert_batches_cut_in_chunks() {
    assert!(insert_batches(0).is_empty());
    assert_eq!(insert_batches(1), vec![(0, 1)]);
    assert_eq!(insert_batches(INSERT_BATCH), vec![(0, INSERT_BATCH)]);
    assert_eq!(
        insert_batches(INSERT_BATCH + 1),
        vec![(0, INSERT_BATCH), (INSERT_BATCH, INSERT_BATCH + 1)]
    );
    let n = 3 * INSERT_BATCH + 5;
    let expected: Vec<(usize, usize)> = (0..n)
        .collect::<Vec<_>>()
        .chunks(32766 / 4)
        .map(|c| (c[0], c[c.len() - 1] + 1))
        .collect();
    assert_eq!(insert_batches(n), expected);
}

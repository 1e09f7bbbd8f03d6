use wutag::error::Error;
use wutag::query::search_files_with_tags;
use wutag::store::{clear_tags, has_tags, list_tags, list_tags_btree};
use wutag::tag::Tag;

fn attr(k: &str, v: &str) -> (String, String) {
    (k.to_string(), v.to_string())
}

/// Writes an attribute as the platform does: a key already present takes the new value.
fn set_attr(attrs: &mut Vec<(String, String)>, kv: (String, String)) {
    if let Some(slot) = attrs.iter_mut().find(|(k, _)| *k == kv.0) {
        slot.1 = kv.1;
    } else {
        attrs.push(kv);
    }
}

fn remove_attr(attrs: &mut Vec<(String, String)>, key: &str) {
    attrs.retain(|(k, _)| k != key);
}

fn attach(attrs: &mut Vec<(String, String)>, name: &str, ts: i64) -> Result<(), Error> {
    let kv = Tag::with_timestamp(name.to_string(), ts).save_to(attrs)?;
    set_attr(attrs, kv);
    Ok(())
}

fn detach(attrs: &mut Vec<(String, String)>, name: &str) -> Result<(), Error> {
    let key = Tag::with_timestamp(name.to_string(), 0).remove_from(attrs)?;
    remove_attr(attrs, &key);
    Ok(())
}

fn names(tags: &[Tag]) -> Vec<String> {
    tags.iter().map(|t| t.name().to_string()).collect()
}

#[test]
fn list_skips_foreign_and_malformed_attributes() {
    let attrs = vec![
        attr("user.wutag.10", "a"),
        attr("user.other.11", "b"),
        attr("security.selinux", "c"),
        attr("user.wutag.zz", "d"),
        attr("user.wutag.12", "e"),
    ];
    let tags = list_tags(&attrs);
    assert_eq!(names(&tags), vec!["a", "e"]);
    assert_eq!(tags[1].timestamp(), 12);
    assert!(list_tags(&Vec::new()).is_empty());
}

#[test]
fn sorted_list_orders_by_name_and_keeps_last() {
    let attrs = vec![
        attr("user.wutag.30", "zeta"),
        attr("user.wutag.10", "alpha"),
        attr("user.wutag.20", "zeta"),
        attr("user.wutag.5", "mid"),
    ];
    let tags = list_tags_btree(&attrs);
    assert_eq!(names(&tags), vec!["alpha", "mid", "zeta"]);
    assert_eq!(tags[2].timestamp(), 20);
}

#[test]
fn attaching_twice_fails_and_changes_nothing() {
    let mut attrs = vec![attr("user.mime", "text/plain")];
    attach(&mut attrs, "red", 100).unwrap();
    let before = list_tags(&attrs).len();
    assert_eq!(attach(&mut attrs, "red", 200), Err(Error::TagExists));
    assert_eq!(list_tags(&attrs).len(), before);
    assert_eq!(before, 1);
}

#[test]
fn save_to_returns_the_attribute_to_write() {
    let tag = Tag::with_timestamp("blue".to_string(), 42);
    let kv = tag.save_to(&vec![attr("user.wutag.1", "red")]).unwrap();
    assert_eq!(kv, ("user.wutag.42".to_string(), "blue".to_string()));
}

#[test]
fn remove_from_takes_first_namespaced_match() {
    let attrs = vec![
        attr("user.other.1", "red"),
        attr("user.wutag.2", "red"),
        attr("user.wutag.3", "red"),
    ];
    let tag = Tag::with_timestamp("red".to_string(), 0);
    assert_eq!(tag.remove_from(&attrs), Ok("user.wutag.2".to_string()));
    let only_foreign = vec![attr("user.other.1", "red")];
    assert_eq!(tag.remove_from(&only_foreign), Err(Error::TagNotFound));
}

#[test]
fn clear_names_only_namespaced_keys() {
    let attrs = vec![
        attr("user.wutag.1", "a"),
        attr("user.mime", "text"),
        attr("user.wutag.bad", "b"),
    ];
    assert_eq!(clear_tags(&attrs), vec!["user.wutag.1".to_string(), "user.wutag.bad".to_string()]);
}

#[test]
fn clear_twice_is_harmless() {
    let mut attrs = vec![attr("user.wutag.1", "a"), attr("user.mime", "text"), attr("user.wutag.2", "b")];
    for key in clear_tags(&attrs) {
        remove_attr(&mut attrs, &key);
    }
    assert!(list_tags(&attrs).is_empty());
    assert!(clear_tags(&attrs).is_empty());
    assert_eq!(attrs, vec![attr("user.mime", "text")]);
}

#[test]
fn has_tags_sees_only_decodable_tags() {
    assert!(!has_tags(&vec![attr("user.wutag.x", "a"), attr("user.mime", "t")]));
    assert!(has_tags(&vec![attr("user.wutag.1", "a")]));
}

#[test]
fn search_is_a_subset_query() {
    let file = vec![attr("user.wutag.1", "a"), attr("user.wutag.2", "b"), attr("user.wutag.3", "c")];
    let entries = vec![("f".to_string(), Ok(file))];
    let q = |tags: &[&str]| {
        let tags: Vec<String> = tags.iter().map(|s| s.to_string()).collect();
        search_files_with_tags(&tags, &entries)
    };
    assert_eq!(q(&["a", "b"]), vec!["f".to_string()]);
    assert!(q(&["a", "d"]).is_empty());
    assert_eq!(q(&[]), vec!["f".to_string()]);
}

#[test]
fn search_skips_entries_that_could_not_be_listed() {
    let entries = vec![
        ("locked".to_string(), Err(Error::Attribute("permission denied".to_string()))),
        ("plain".to_string(), Ok(Vec::new())),
        ("tagged".to_string(), Ok(vec![attr("user.wutag.1", "x")])),
    ];
    assert_eq!(search_files_with_tags(&Vec::new(), &entries), vec!["plain".to_string(), "tagged".to_string()]);
    assert_eq!(search_files_with_tags(&vec!["x".to_string()], &entries), vec!["tagged".to_string()]);
}

#[test]
fn photo_scenario() {
    let mut photo: Vec<(String, String)> = Vec::new();
    attach(&mut photo, "vacation", 1000).unwrap();
    assert_eq!(names(&list_tags(&photo)), vec!["vacation"]);
    assert_eq!(attach(&mut photo, "vacation", 1001), Err(Error::TagExists));
    attach(&mut photo, "beach", 1002).unwrap();
    let entries = vec![("photo.png".to_string(), Ok(photo.clone()))];
    let wanted = vec!["vacation".to_string(), "beach".to_string()];
    assert_eq!(search_files_with_tags(&wanted, &entries), vec!["photo.png".to_string()]);
    assert!(search_files_with_tags(&vec!["winter".to_string()], &entries).is_empty());
    detach(&mut photo, "beach").unwrap();
    assert_eq!(names(&list_tags(&photo)), vec!["vacation"]);
    assert_eq!(detach(&mut photo, "beach"), Err(Error::TagNotFound));
}

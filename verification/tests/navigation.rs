use rawview::navigator::{sort_paths, Navigator};

#[test]
fn test_navigation() {
    let mut nav = Navigator::new();
    let p1 = String::from("a.jpg");
    let p2 = String::from("b.jpg");
    let p3 = String::from("c.jpg");

    nav.image_list = vec![p1.clone(), p2.clone(), p3.clone()];

    // Test Next
    nav.current_path = Some(p1.clone());
    assert_eq!(nav.get_next_image(), Some(p2.clone()));

    nav.current_path = Some(p2.clone());
    assert_eq!(nav.get_next_image(), Some(p3.clone()));

    nav.current_path = Some(p3.clone());
    assert_eq!(nav.get_next_image(), None);

    // Test Prev
    nav.current_path = Some(p3.clone());
    assert_eq!(nav.get_prev_image(), Some(p2.clone()));

    nav.current_path = Some(p2.clone());
    assert_eq!(nav.get_prev_image(), Some(p1.clone()));

    nav.current_path = Some(p1.clone());
    assert_eq!(nav.get_prev_image(), None);
}

#[test]
fn navigation_without_current_path_goes_nowhere() {
    let mut nav = Navigator::new();
    nav.image_list = vec![String::from("a.jpg"), String::from("b.jpg")];
    assert_eq!(nav.get_next_image(), None);
    assert_eq!(nav.get_prev_image(), None);
}

#[test]
fn navigation_with_unlisted_current_path_goes_nowhere() {
    let mut nav = Navigator::new();
    nav.image_list = vec![String::from("a.jpg"), String::from("b.jpg")];
    nav.current_path = Some(String::from("zz.png"));
    assert_eq!(nav.get_next_image(), None);
    assert_eq!(nav.get_prev_image(), None);
}

#[test]
fn filter_keeps_only_viewable_extensions() {
    let names = vec![
        String::from("a.jpg"),
        String::from("b.txt"),
        String::from("c.NEF"),
        String::from("d.jpeg"),
        String::from("e.png"),
        String::from("notes.md"),
        String::from("f.CR2"),
        String::from("g.dng"),
        String::from("h.arw"),
        String::from(".hidden"),
        String::from("noext"),
    ];
    let kept = rawview::pipeline::filter_image_paths(names);
    let expected = vec![
        String::from("a.jpg"),
        String::from("c.NEF"),
        String::from("d.jpeg"),
        String::from("e.png"),
        String::from("f.CR2"),
        String::from("g.dng"),
        String::from("h.arw"),
    ];
    assert_eq!(kept, expected);
}

#[test]
fn sort_orders_paths_like_the_standard_sort() {
    let names = vec![
        String::from("c.jpg"),
        String::from("a.jpg"),
        String::from("b.png"),
        String::from("a.jpg"),
        String::from("B.png"),
    ];
    let mut expected = names.clone();
    expected.sort();
    assert_eq!(sort_paths(names), expected);
}

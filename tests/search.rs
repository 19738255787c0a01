use name_game::search::{
    find_from, find_images_on_page, first_video_link, image_results_section, image_search_url, images_at,
    random_image_on_page, rfind_from, youtube_search_url,
};

#[test]
fn video_link_is_first_watch_path() {
    let page = r#"<a href="/feed">x</a><a href="/watch?v=abc123&t=1">one</a><a href="/watch?v=zzz">two</a>"#;
    assert_eq!(first_video_link(page), Some("https://www.youtube.com/watch?v=abc123&t=1".to_string()));
    assert_eq!(first_video_link("no videos here"), None);
    assert_eq!(first_video_link("/watch?v=unterminated"), None);
}

#[test]
fn search_urls_percent_encode_the_query() {
    assert_eq!(
        youtube_search_url("never gonna"),
        "https://www.youtube.com/results?search_query=never%20gonna"
    );
    assert_eq!(image_search_url("katt?"), "https://www.google.com/search?tbm=isch&q=katt%3F");
    assert_eq!(image_search_url("åk"), "https://www.google.com/search?tbm=isch&q=%C3%A5k");
}

#[test]
fn images_are_quoted_texts_around_extensions() {
    let page = r#"["https://a.se/x.jpg",1],["https://b.se/y.png?s=2",3],[noquote.jpeg"#;
    assert_eq!(
        find_images_on_page(page),
        vec!["https://a.se/x.jpg".to_string(), "https://b.se/y.png?s=2".to_string()]
    );
    assert_eq!(find_images_on_page("nothing to see"), Vec::<String>::new());
}

#[test]
fn images_at_given_offsets() {
    let page = r#"a "b.jpg" c"#;
    assert_eq!(images_at(page, &vec![4]), vec!["b.jpg".to_string()]);
    assert_eq!(images_at(page, &vec![0, 100]), Vec::<String>::new());
    assert_eq!(images_at(page, &vec![4, 5]), vec!["b.jpg".to_string(), "b.jpg".to_string()]);
}

#[test]
fn byte_search() {
    let hay = b"abcabc".to_vec();
    assert_eq!(find_from(&hay, &b"bc".to_vec(), 0), Some(1));
    assert_eq!(find_from(&hay, &b"bc".to_vec(), 2), Some(4));
    assert_eq!(find_from(&hay, &b"bc".to_vec(), 5), None);
    assert_eq!(rfind_from(&hay, &b"ab".to_vec(), 5), Some(3));
    assert_eq!(rfind_from(&hay, &b"ab".to_vec(), 2), Some(0));
    assert_eq!(rfind_from(&hay, &b"x".to_vec(), 5), None);
}

#[test]
fn image_results_section_and_pick() {
    let page = r#"<script>key: 'ds:0' "https://no.se/n.jpg"</script><script>key: 'ds:1' ["https://yes.se/y.jpg"]</script>"#;
    assert_eq!(
        image_results_section(page),
        Some(r#"key: 'ds:1' ["https://yes.se/y.jpg"]"#.to_string())
    );
    assert_eq!(random_image_on_page(page), Some("https://yes.se/y.jpg".to_string()));
    assert_eq!(random_image_on_page("<html></html>"), None);
}

#[test]
fn random_image_none_without_images_in_section() {
    let page = r#"<script>key: 'ds:1' ["no images here"]</script>"#;
    assert_eq!(random_image_on_page(page), None);
}

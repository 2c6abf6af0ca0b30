//! Where a build puts the images a document refers to, and the page itself.

use emark_syntax::assets::{html_name, Assets, ASSET_DIRECTORY};
use emark_syntax::path::document_directory;

#[test]
fn an_image_goes_under_assets_by_its_file_name() {
    let mut assets = Assets::new("docs");

    assert_eq!(assets.place("插图/图1.png"), Some("assets/图1.png".to_string()));
    assert_eq!(assets.copies().len(), 1);
    assert_eq!(assets.copies()[0].authored, "插图/图1.png");
    assert_eq!(assets.copies()[0].source, "docs/插图/图1.png");
    assert_eq!(assets.copies()[0].target, "assets/图1.png");
    assert_eq!(assets.take_failure(), None);
    assert_eq!(ASSET_DIRECTORY, "assets");
}

#[test]
fn the_same_image_is_copied_once() {
    let mut assets = Assets::new(".");

    assert_eq!(assets.place("图1.png"), Some("assets/图1.png".to_string()));
    assert_eq!(assets.place("图1.png"), Some("assets/图1.png".to_string()));
    assert_eq!(assets.place("./图1.png"), Some("assets/图1.png".to_string()));
    assert_eq!(assets.place("a/../图1.png"), None);
    assert_eq!(assets.copies().len(), 1);
}

#[test]
fn a_path_written_with_doubled_slashes_is_the_same_image() {
    let mut assets = Assets::new("docs/");

    assert_eq!(assets.place("甲/图示.png"), Some("assets/图示.png".to_string()));
    assert_eq!(assets.place("甲//图示.png"), Some("assets/图示.png".to_string()));
    assert_eq!(assets.copies()[0].source, "docs/甲/图示.png");
    assert_eq!(assets.take_failure(), None);
}

#[test]
fn two_images_that_share_a_file_name_are_refused() {
    let mut assets = Assets::new("docs");

    assert_eq!(assets.place("甲/图示.png"), Some("assets/图示.png".to_string()));
    assert_eq!(assets.place("乙/图示.png"), None);
    assert_eq!(assets.place("丙/图示.png"), None);
    assert_eq!(
        assets.take_failure(),
        Some("两张图片都叫 图示.png：甲/图示.png 与 乙/图示.png".to_string())
    );
    assert_eq!(assets.take_failure(), None);
}

#[test]
fn a_path_without_a_file_name_is_refused() {
    let mut assets = Assets::new("docs");

    assert_eq!(assets.place(".."), None);
    assert_eq!(assets.place("/"), None);
    assert_eq!(assets.take_failure(), Some("图片路径无效：..".to_string()));
    assert!(assets.copies().is_empty());
}

#[test]
fn an_absolute_image_path_is_not_resolved_against_the_document() {
    let mut assets = Assets::new("docs");

    assert_eq!(assets.place("/srv/图.png"), Some("assets/图.png".to_string()));
    assert_eq!(assets.copies()[0].source, "/srv/图.png");
}

#[test]
fn the_page_is_named_after_the_document() {
    assert_eq!(html_name("题目/图文文档.emark"), Ok("图文文档.html".to_string()));
    assert_eq!(html_name("卷子"), Ok("卷子.html".to_string()));
    assert_eq!(html_name("x.tar.gz"), Ok("x.tar.html".to_string()));
    assert_eq!(html_name(".hidden"), Ok(".hidden.html".to_string()));
    assert_eq!(html_name("dir/卷子.emark/"), Ok("卷子.html".to_string()));
}

#[test]
fn a_document_path_without_a_file_name_is_an_error() {
    assert_eq!(html_name(".."), Err("题目文档路径无效：..".to_string()));
    assert_eq!(html_name("/"), Err("题目文档路径无效：/".to_string()));
    assert_eq!(html_name(""), Err("题目文档路径无效：".to_string()));
}

#[test]
fn a_document_resolves_paths_against_its_directory() {
    assert_eq!(document_directory("题目/卷子.emark"), "题目");
    assert_eq!(document_directory("a//b/卷子.emark"), "a//b");
    assert_eq!(document_directory("a/b/"), "a");
    assert_eq!(document_directory("a/./b"), "a");
    assert_eq!(document_directory("/卷子.emark"), "/");
    assert_eq!(document_directory("卷子.emark"), ".");
    assert_eq!(document_directory("./卷子.emark"), ".");
    assert_eq!(document_directory(""), ".");
    assert_eq!(document_directory("/"), ".");
    assert_eq!(document_directory("../卷子.emark"), "..");
}

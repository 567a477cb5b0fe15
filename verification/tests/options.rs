use cargo_docs::cargo_book;
use cargo_docs::cargo_docs as docs;
use cargo_docs::cargo_book::Book;
use cargo_docs::locate::doc_html_dir;
use cargo_docs::tower::{crate_root_redirect, dir_redirect_target, directory_listing_page,
    index_page, Route, Server};

fn book_options() -> cargo_book::Options {
    cargo_book::Options {
        skim: false,
        list: false,
        locate: false,
        host: "127.0.0.1".to_string(),
        port: "8080".to_string(),
        random_port: false,
        search: None,
        open: false,
        book: None,
    }
}

fn docs_options() -> docs::Options {
    docs::Options {
        host: "127.0.0.1".to_string(),
        port: "8080".to_string(),
        random_port: false,
        search: None,
        dir: None,
        manifest_path: "Cargo.toml".to_string(),
        watch: false,
        open: false,
        book: false,
        extra_args: Vec::new(),
    }
}

#[test]
fn book_hostport_and_url() {
    let o = book_options();
    assert_eq!(o.host(), "127.0.0.1");
    assert_eq!(o.port(), "8080");
    assert_eq!(o.hostport(), "127.0.0.1:8080");
    assert_eq!(o.url(), "http://127.0.0.1:8080");
}

#[test]
fn book_link_plain() {
    let o = book_options();
    assert_eq!(o.link(), "http://127.0.0.1:8080");
    assert_eq!(o.book_link(), "http://127.0.0.1:8080");
}

#[test]
fn book_link_search() {
    let mut o = book_options();
    o.search = Some("Vec".to_string());
    assert_eq!(o.link(), "http://127.0.0.1:8080/std/?search=Vec");
}

#[test]
fn book_link_with_book() {
    let mut o = book_options();
    o.book = Some(Book::Nomicon);
    assert_eq!(o.book_link(), "http://127.0.0.1:8080/nomicon");
    o.search = Some("drop".to_string());
    assert_eq!(o.book_link(), "http://127.0.0.1:8080/nomicon/?search=drop");
}

#[test]
fn book_link_online_only_books() {
    let mut o = book_options();
    o.book = Some(Book::Rustlings);
    assert_eq!(o.book_link(), "https://github.com/rust-lang/rustlings");
    o.book = Some(Book::RustDevGuide);
    assert_eq!(o.book_link(), "https://rustc-dev-guide.rust-lang.org");
}

#[test]
fn book_run_mode() {
    let mut o = book_options();
    assert_eq!(o.run_mode(), cargo_book::RunMode::Serve);
    o.list = true;
    assert_eq!(o.run_mode(), cargo_book::RunMode::List);
    o.locate = true;
    assert_eq!(o.run_mode(), cargo_book::RunMode::Locate);
}

#[test]
fn book_text_names() {
    assert_eq!(Book::Rust.text(), "book");
    assert_eq!(Book::RustByExample.text(), "rust-by-example");
    assert_eq!(Book::UnstableBook.text(), "unstable-book");
    assert_eq!(Book::EmbeddedBook.text(), "embedded-book");
}

#[test]
fn docs_hostport_and_url() {
    let o = docs_options();
    assert_eq!(o.host(), "127.0.0.1");
    assert_eq!(o.port(), "8080");
    assert_eq!(o.hostport(), "127.0.0.1:8080");
    assert_eq!(o.url(), "http://127.0.0.1:8080");
}

#[test]
fn docs_link_search() {
    let mut o = docs_options();
    assert_eq!(o.link(), "http://127.0.0.1:8080");
    o.search = Some("Vec".to_string());
    assert_eq!(o.link(), "http://127.0.0.1:8080/?search=Vec");
    o.book = true;
    assert_eq!(o.link(), "http://127.0.0.1:8080/std/?search=Vec");
}

#[test]
fn docs_run_mode() {
    let mut o = docs_options();
    assert_eq!(o.run_mode(), docs::RunMode::ServeCrateDoc);
    o.book = true;
    assert_eq!(o.run_mode(), docs::RunMode::ServeBook);
    o.dir = Some("/tmp/doc".to_string());
    assert_eq!(o.run_mode(), docs::RunMode::ServeDir);
}

fn server() -> Server {
    Server {
        crate_dir: "/work/target/doc".to_string(),
        rustup_dir: Some("/toolchain/share/doc/rust/html".to_string()),
    }
}

#[test]
fn route_crate_file() {
    let s = server();
    match s.route(&"crate/index.html".to_string()) {
        Route::CrateFile(p) => assert_eq!(p, "/work/target/doc/index.html"),
        _ => panic!("expected a crate file"),
    }
    match s.route(&"crate".to_string()) {
        Route::CrateFile(p) => assert_eq!(p, "/work/target/doc/"),
        _ => panic!("expected a crate file"),
    }
}

#[test]
fn route_rust_file() {
    let s = server();
    match s.route(&"rust/std/index.html".to_string()) {
        Route::RustFile(p) => assert_eq!(p, "/toolchain/share/doc/rust/html/std/index.html"),
        _ => panic!("expected a rust file"),
    }
}

#[test]
fn route_redirects_without_rustup() {
    let mut s = server();
    s.rustup_dir = None;
    match s.route(&"rust/std/index.html".to_string()) {
        Route::RedirectOfficial(u) => {
            assert_eq!(u, "https://doc.rust-lang.org/nightlystd/index.html")
        }
        _ => panic!("expected a redirect"),
    }
}

#[test]
fn route_not_found() {
    let s = server();
    assert!(matches!(s.route(&"cratex/index.html".to_string()), Route::NotFound));
    assert!(matches!(s.route(&"other".to_string()), Route::NotFound));
    assert!(matches!(s.route(&"".to_string()), Route::NotFound));
}

#[test]
fn dir_redirects_to_index() {
    assert_eq!(dir_redirect_target(&"crate/foo".to_string()), "/crate/foo/index.html");
    assert_eq!(dir_redirect_target(&"".to_string()), "/index.html");
}

#[test]
fn listing_page_links_children() {
    let paths = vec!["a.html".to_string(), "sub".to_string()];
    assert_eq!(
        directory_listing_page(&paths),
        "<!DOCTYPE html><html><body><a href=\"a.html\">a.html</a><br /><a href=\"sub\">sub</a><br /></body></html>"
    );
    assert_eq!(
        directory_listing_page(&Vec::new()),
        "<!DOCTYPE html><html><body></body></html>"
    );
}

#[test]
fn index_page_offers_both_trees() {
    assert_eq!(
        index_page(),
        "<!DOCTYPE html><html><body><a href=\"/crate\">Crate-specific documentation</a><br /><a href=\"/rust\">Rust book and std documentation</a></body></html>"
    );
}

#[test]
fn crate_root_redirect_carries_query() {
    assert_eq!(crate_root_redirect(&"mycrate".to_string(), &None), "/mycrate/");
    assert_eq!(
        crate_root_redirect(&"mycrate".to_string(), &Some("q=Vec".to_string())),
        "/mycrate/?q=Vec"
    );
}

#[test]
fn doc_html_dir_from_rustdoc_path() {
    assert_eq!(
        doc_html_dir(&"/home/u/.rustup/toolchains/nightly/bin/rustdoc".to_string()),
        "/home/u/.rustup/toolchains/nightly/share/doc/rust/html"
    );
}

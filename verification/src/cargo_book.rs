//! Options for serving the rust books and standard library documentation:
//! which book to open, where the server listens, and the links printed and
//! opened. Only the pure decisions live here; binding sockets, launching the
//! browser and running the HTTP server are the caller's work.

use vstd::prelude::*;
use vstd::string::StringExecFns;

verus! {

/// The books that can be served, each naming the path segment under which
/// the installed documentation tree publishes it.
#[derive(Clone, Copy, Debug, PartialEq, Eq, Structural)]
pub enum Book {
    /// [Learn Rust] The Rust Programming Language
    Rust,
    /// [Learn Rust] Rust By Example
    RustByExample,
    /// [Learn Rust] Rustlings
    Rustlings,
    /// [Use Rust] The Standard Library
    Std,
    /// [Use Rust] The Edition Guide
    EditionGuide,
    /// [Use Rust] The Rustc Book
    Rustc,
    /// [Use Rust] The Cargo Book
    Cargo,
    /// [Use Rust] The Rustdoc Book
    Rustdoc,
    /// [Master Rust] The Reference
    Reference,
    /// [Master Rust] The Rustonomicon
    Nomicon,
    /// [Master Rust] The Unstable Book
    UnstableBook,
    /// [Master Rust] The Rustc Contribution Guide
    RustDevGuide,
    /// [Specialize Rust] The Embedded Rust Book
    EmbeddedBook,
}

impl Book {
    /// The book's path segment in the installed documentation tree.
    pub open spec fn text_spec(self) -> Seq<char> {
        match self {
            Book::Rust => "book"@,
            Book::RustByExample => "rust-by-example"@,
            Book::Rustlings => "rustlings"@,
            Book::Std => "std"@,
            Book::EditionGuide => "edition-guide"@,
            Book::Rustc => "rustc"@,
            Book::Cargo => "cargo"@,
            Book::Rustdoc => "rustdoc"@,
            Book::Reference => "reference"@,
            Book::Nomicon => "nomicon"@,
            Book::UnstableBook => "unstable-book"@,
            Book::RustDevGuide => "rust-dev-guide"@,
            Book::EmbeddedBook => "embedded-book"@,
        }
    }

    /// The book's textual name, as listed and as used in links.
    pub fn text(&self) -> (r: String)
        ensures
            r@ == self.text_spec(),
    {
        match self {
            Book::Rust => String::from_str("book"),
            Book::RustByExample => String::from_str("rust-by-example"),
            Book::Rustlings => String::from_str("rustlings"),
            Book::Std => String::from_str("std"),
            Book::EditionGuide => String::from_str("edition-guide"),
            Book::Rustc => String::from_str("rustc"),
            Book::Cargo => String::from_str("cargo"),
            Book::Rustdoc => String::from_str("rustdoc"),
            Book::Reference => String::from_str("reference"),
            Book::Nomicon => String::from_str("nomicon"),
            Book::UnstableBook => String::from_str("unstable-book"),
            Book::RustDevGuide => String::from_str("rust-dev-guide"),
            Book::EmbeddedBook => String::from_str("embedded-book"),
        }
    }
}

/// What a run should do, decided from the flags alone. The caller performs
/// the chosen action: print the documentation location, print the list of
/// books, or serve (after an interactive selection when asked for).
#[derive(Clone, Copy, Debug, PartialEq, Eq, Structural)]
pub enum RunMode {
    /// Print where the installed documentation lives, then exit.
    Locate,
    /// Print the available books, then exit.
    List,
    /// Serve the documentation over HTTP.
    Serve,
}

/// Command-line options of the book server.
pub struct Options {
    /// Select a book interactively.
    pub skim: bool,
    /// List available books.
    pub list: bool,
    /// Show the documentation location, then exit.
    pub locate: bool,
    /// Host to listen on.
    pub host: String,
    /// Port to listen on.
    pub port: String,
    /// Pick a free port instead of `port`.
    pub random_port: bool,
    /// Item to search for.
    pub search: Option<String>,
    /// Open the served link in a browser.
    pub open: bool,
    /// The book to read.
    pub book: Option<Book>,
}

impl Options {
    pub open spec fn hostport_spec(self) -> Seq<char> {
        self.host@ + ":"@ + self.port@
    }

    pub open spec fn url_spec(self) -> Seq<char> {
        "http://"@ + self.hostport_spec()
    }

    pub open spec fn link_spec(self) -> Seq<char> {
        match self.search {
            Option::None => self.url_spec(),
            Option::Some(q) => self.url_spec() + "/std/?search="@ + q@,
        }
    }

    pub open spec fn book_link_spec(self) -> Seq<char> {
        match self.book {
            Option::None => self.link_spec(),
            Option::Some(book) => if book == Book::Rustlings {
                "https://github.com/rust-lang/rustlings"@
            } else if book == Book::RustDevGuide {
                "https://rustc-dev-guide.rust-lang.org"@
            } else {
                match self.search {
                    Option::None => self.url_spec() + "/"@ + book.text_spec(),
                    Option::Some(q) => self.url_spec() + "/"@ + book.text_spec() + "/?search="@
                        + q@,
                }
            },
        }
    }

    /// The configured host.
    pub fn host(&self) -> (r: String)
        ensures
            r@ == self.host@,
    {
        self.host.clone()
    }

    /// The configured port.
    pub fn port(&self) -> (r: String)
        ensures
            r@ == self.port@,
    {
        self.port.clone()
    }

    /// Host and port joined for a socket address.
    pub fn hostport(&self) -> (r: String)
        ensures
            r@ == self.hostport_spec(),
    {
        let mut s = self.host.clone();
        s.append(":");
        s.append(self.port.as_str());
        s
    }

    /// The base URL of the server.
    pub fn url(&self) -> (r: String)
        ensures
            r@ == self.url_spec(),
    {
        let mut s = String::from_str("http://");
        let hp = self.hostport();
        s.append(hp.as_str());
        s
    }

    /// The link to open when no book is chosen: the base URL, with a
    /// standard library search when an item is searched for.
    pub fn link(&self) -> (r: String)
        ensures
            r@ == self.link_spec(),
    {
        let url = self.url();
        match &self.search {
            Option::None => url,
            Option::Some(q) => {
                let mut s = url;
                s.append("/std/?search=");
                s.append(q.as_str());
                s
            },
        }
    }

    /// The link to open for the chosen book. Books hosted only online link
    /// there; installed books link into the served tree, with the search
    /// query carried over.
    pub fn book_link(&self) -> (r: String)
        ensures
            r@ == self.book_link_spec(),
    {
        match self.book {
            Option::None => self.link(),
            Option::Some(book) => {
                if book == Book::Rustlings {
                    String::from_str("https://github.com/rust-lang/rustlings")
                } else if book == Book::RustDevGuide {
                    String::from_str("https://rustc-dev-guide.rust-lang.org")
                } else {
                    let mut s = self.url();
                    s.append("/");
                    let t = book.text();
                    s.append(t.as_str());
                    match &self.search {
                        Option::None => s,
                        Option::Some(q) => {
                            s.append("/?search=");
                            s.append(q.as_str());
                            s
                        },
                    }
                }
            },
        }
    }

    /// What this run should do, from the flags alone.
    pub fn run_mode(&self) -> (r: RunMode)
        ensures
            r == (if self.locate {
                RunMode::Locate
            } else if self.list {
                RunMode::List
            } else {
                RunMode::Serve
            }),
    {
        if self.locate {
            RunMode::Locate
        } else if self.list {
            RunMode::List
        } else {
            RunMode::Serve
        }
    }
}

} // verus!

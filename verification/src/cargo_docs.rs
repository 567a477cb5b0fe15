//! Options for serving the documentation of the current crate, a chosen
//! directory, or the rust books. Only the pure decisions live here; running
//! the documentation generator, binding sockets, launching the browser and
//! the HTTP server itself are the caller's work.

use vstd::prelude::*;
use vstd::string::StringExecFns;

verus! {

/// What a run should do, decided from the options alone.
#[derive(Clone, Copy, Debug, PartialEq, Eq, Structural)]
pub enum RunMode {
    /// Serve the contents of the chosen directory.
    ServeDir,
    /// Serve the rust books and standard library documentation.
    ServeBook,
    /// Generate and serve the current crate's documentation.
    ServeCrateDoc,
}

/// Command-line options of the crate documentation server.
pub struct Options {
    /// Host to listen on.
    pub host: String,
    /// Port to listen on.
    pub port: String,
    /// Pick a free port instead of `port`.
    pub random_port: bool,
    /// Item to search for.
    pub search: Option<String>,
    /// Serve this directory's content instead.
    pub dir: Option<String>,
    /// Crate manifest path.
    pub manifest_path: String,
    /// Re-generate the documentation on change.
    pub watch: bool,
    /// Open the served link in a browser.
    pub open: bool,
    /// Serve the rust books and standard library documentation instead.
    pub book: bool,
    /// Extra arguments passed through to the documentation generator.
    pub extra_args: Vec<String>,
}

impl Options {
    pub open spec fn hostport_spec(self) -> Seq<char> {
        self.host@ + ":"@ + self.port@
    }

    pub open spec fn url_spec(self) -> Seq<char> {
        "http://"@ + self.hostport_spec()
    }

    pub open spec fn link_spec(self) -> Seq<char> {
        match self.search {
            Option::None => self.url_spec(),
            Option::Some(q) => if self.book {
                self.url_spec() + "/std/?search="@ + q@
            } else {
                self.url_spec() + "/?search="@ + q@
            },
        }
    }

    /// The configured host.
    pub fn host(&self) -> (r: String)
        ensures
            r@ == self.host@,
    {
        self.host.clone()
    }

    /// The configured port.
    pub fn port(&self) -> (r: String)
        ensures
            r@ == self.port@,
    {
        self.port.clone()
    }

    /// Host and port joined for a socket address.
    pub fn hostport(&self) -> (r: String)
        ensures
            r@ == self.hostport_spec(),
    {
        let mut s = self.host.clone();
        s.append(":");
        s.append(self.port.as_str());
        s
    }

    /// The base URL of the server.
    pub fn url(&self) -> (r: String)
        ensures
            r@ == self.url_spec(),
    {
        let mut s = String::from_str("http://");
        let hp = self.hostport();
        s.append(hp.as_str());
        s
    }

    /// The link to open: the base URL, with the search query attached under
    /// the standard library when the books are served, at the root
    /// otherwise.
    pub fn link(&self) -> (r: String)
        ensures
            r@ == self.link_spec(),
    {
        let url = self.url();
        match &self.search {
            Option::None => url,
            Option::Some(q) => {
                let mut s = url;
                if self.book {
                    s.append("/std/?search=");
                } else {
                    s.append("/?search=");
                }
                s.append(q.as_str());
                s
            },
        }
    }

    /// What this run should do, from the options alone.
    pub fn run_mode(&self) -> (r: RunMode)
        ensures
            r == (if self.dir is Some {
                RunMode::ServeDir
            } else if self.book {
                RunMode::ServeBook
            } else {
                RunMode::ServeCrateDoc
            }),
    {
        if self.dir.is_some() {
            RunMode::ServeDir
        } else if self.book {
            RunMode::ServeBook
        } else {
            RunMode::ServeCrateDoc
        }
    }
}

} // verus!

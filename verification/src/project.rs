use vstd::prelude::*;

verus! {

use vstd::string::StringExecFns;

#[verifier::external_type_specification]
#[verifier::external_body]
pub struct ExUrl(url::Url);

/// Why a file URI could not be formed from a path.
#[derive(Clone, Copy, Debug, PartialEq, Eq, Structural)]
pub enum UriError {
    NotAbsolute,
}

/// Relies on url's `Url::from_file_path`: on this family of systems it
/// returns `Ok` exactly for an absolute path, one that starts with the
/// separator.
#[verifier::external_body]
fn url_from_file_path(path: &String) -> (r: Result<url::Url, UriError>)
    ensures
        r is Ok <==> (path@.len() > 0 && path@[0] == '/'),
{
    url::Url::from_file_path(path.as_str()).map_err(|_| UriError::NotAbsolute)
}

/// The joined path of a base and a relative part: the relative part alone
/// where it is itself absolute, else the base, a separator, and the part.
pub open spec fn spec_path_join(base: Seq<char>, rel: Seq<char>) -> Seq<char> {
    if rel.len() > 0 && rel[0] == '/' {
        rel
    } else {
        base + "/"@ + rel
    }
}

/// Joins a base path and a relative part.
pub fn path_join(base: &String, rel: &String) -> (r: String)
    ensures
        r@ == spec_path_join(base@, rel@),
{
    let rel_chars = crate::text::str_to_chars(rel.as_str());
    if rel_chars.len() > 0 && rel_chars[0] == '/' {
        rel.clone()
    } else {
        let mut out: String = base.clone();
        out.append("/");
        out.append(rel.as_str());
        out
    }
}

/// How the boundary layer of the server is reachable: standard streams or a
/// network endpoint with a host and a port.
#[derive(Clone, Debug)]
pub enum TransportType {
    Stdio,
    Sse { host: String, port: u16 },
    StreamableHttp { host: String, port: u16 },
}

/// One project under management: its canonical root directory and the crate
/// names excluded from certain operations.
///
/// The root is stored exactly as given; callers canonicalize before
/// constructing, so a `Project` never holds a non-canonical root.
#[derive(Clone, Debug)]
pub struct Project {
    pub root: String,
    pub ignore_crates: Vec<String>,
}

impl Project {
    /// A fresh project at `root` with an empty ignore list.
    pub fn new(root: String) -> (p: Project)
        ensures
            p.root@ == root@,
            p.ignore_crates@.len() == 0,
    {
        Project { root, ignore_crates: Vec::new() }
    }

    /// The crate names excluded from certain operations.
    pub fn ignore_crates(&self) -> (r: &Vec<String>)
        ensures
            r@ == self.ignore_crates@,
    {
        &self.ignore_crates
    }

    /// The canonical root directory of the project.
    pub fn root(&self) -> (r: &String)
        ensures
            r@ == self.root@,
    {
        &self.root
    }

    /// The file URI of the project root; refused where the root is not
    /// absolute.
    pub fn uri(&self) -> (r: Result<url::Url, UriError>)
        ensures
            r is Ok <==> (self.root@.len() > 0 && self.root@[0] == '/'),
    {
        url_from_file_path(&self.root)
    }

    /// The file URI of a path inside the project; refused where the joined
    /// path is not absolute.
    pub fn file_uri(&self, relative_path: &String) -> (r: Result<url::Url, UriError>)
        ensures
            r is Ok <==> ({
                let j = spec_path_join(self.root@, relative_path@);
                j.len() > 0 && j[0] == '/'
            }),
    {
        let joined = path_join(&self.root, relative_path);
        url_from_file_path(&joined)
    }
}

} // verus!

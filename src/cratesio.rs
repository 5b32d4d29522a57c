use vstd::prelude::*;
use vstd::string::*;

verus! {

/// The crates.io endpoint that describes one crate, before the crate's name.
pub const CRATES_API: &'static str = "https://crates.io/api/v1/crates/";

/// `name` percent-encoded as one segment of a URL path.
pub uninterp spec fn path_segment_encoded(name: Seq<char>) -> Seq<char>;

/// Relies on `url::percent_encoding::utf8_percent_encode` with
/// `PATH_SEGMENT_ENCODE_SET`: the encoding depends on the characters alone, and an
/// empty name encodes to nothing.
#[verifier::external_body]
fn encode_path_segment(name: &str) -> (r: String)
    ensures
        r@ == path_segment_encoded(name@),
        name@.len() == 0 ==> r@.len() == 0,
{
    url::percent_encoding::utf8_percent_encode(name, url::percent_encoding::PATH_SEGMENT_ENCODE_SET)
        .collect::<String>()
}

/// The URL of the description of the crate whose encoded name is `encoded`.
pub fn crate_url_for(encoded: &str) -> (r: String)
    ensures
        r@ == CRATES_API@ + encoded@,
{
    String::from_str(CRATES_API).concat(encoded)
}

/// The URL of the crates.io description of crate `name`.
pub fn crate_info_url(name: &str) -> (r: String)
    ensures
        r@ == CRATES_API@ + path_segment_encoded(name@),
{
    let encoded = encode_path_segment(name);
    crate_url_for(encoded.as_str())
}

/// What crates.io says of a crate.
pub struct Info {
    krate: Crate,
}

/// The description of one crate on crates.io.
pub struct Crate {
    id: String,
    name: String,
    description: String,
    max_version: String,
}

impl Info {
    pub fn new(krate: Crate) -> (r: Info)
        ensures
            r.spec_krate() == krate,
    {
        Info { krate }
    }

    pub closed spec fn spec_krate(&self) -> Crate {
        self.krate
    }

    pub fn krate(&self) -> (r: &Crate)
        ensures
            *r == self.spec_krate(),
    {
        &self.krate
    }
}

impl Crate {
    pub fn new(id: String, name: String, description: String, max_version: String) -> (r: Crate)
        ensures
            r.spec_id() == id@,
            r.spec_name() == name@,
            r.spec_description() == description@,
            r.spec_max_version() == max_version@,
    {
        Crate { id, name, description, max_version }
    }

    pub closed spec fn spec_id(&self) -> Seq<char> {
        self.id@
    }

    pub closed spec fn spec_name(&self) -> Seq<char> {
        self.name@
    }

    pub closed spec fn spec_description(&self) -> Seq<char> {
        self.description@
    }

    pub closed spec fn spec_max_version(&self) -> Seq<char> {
        self.max_version@
    }

    pub fn id(&self) -> (r: &str)
        ensures
            r@ == self.spec_id(),
    {
        self.id.as_str()
    }

    pub fn name(&self) -> (r: &str)
        ensures
            r@ == self.spec_name(),
    {
        self.name.as_str()
    }

    pub fn description(&self) -> (r: &str)
        ensures
            r@ == self.spec_description(),
    {
        self.description.as_str()
    }

    pub fn max_version(&self) -> (r: &str)
        ensures
            r@ == self.spec_max_version(),
    {
        self.max_version.as_str()
    }
}

} // verus!

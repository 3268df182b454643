//! Services: configuration, a generic keyed data store, and a client that
//! builds request URLs and simulated responses.

use vstd::prelude::*;
use vstd::string::StringExecFns;

use crate::shims::str_starts_with;
use crate::strmap::StringMap;

verus! {

/// Configuration for services: the API endpoint, a timeout in milliseconds,
/// a retry count and a debug switch.
#[derive(Debug)]
pub struct Config {
    pub api_url: String,
    pub timeout_millis: u64,
    pub retries: u32,
    pub debug: bool,
}

impl Clone for Config {
    /// A field-for-field copy.
    fn clone(&self) -> (r: Self)
        ensures
            r == *self,
    {
        Config {
            api_url: self.api_url.clone(),
            timeout_millis: self.timeout_millis,
            retries: self.retries,
            debug: self.debug,
        }
    }
}

impl Default for Config {
    /// The stock configuration: the example endpoint, a five-second timeout,
    /// three retries, no debugging.
    fn default() -> (r: Self)
        ensures
            r.api_url@ == "https://api.example.com"@,
            r.timeout_millis == 5000,
            r.retries == 3,
            r.debug == false,
    {
        Config {
            api_url: "https://api.example.com".to_owned(),
            timeout_millis: 5000,
            retries: 3,
            debug: false,
        }
    }
}

/// Data access over entities of one type, for users of the library to
/// implement.
pub trait Repository<T> {
    fn save(&self, entity: T) -> Result<(), String>;

    fn find(&self, id: &str) -> Option<T>;

    fn find_all(&self) -> Vec<T>;

    fn delete(&self, id: &str) -> bool;
}

/// A generic data service: a configuration and a store of entities under
/// string keys.
pub struct DataService<T: Clone> {
    config: Config,
    storage: Vec<(String, T)>,
}

impl<T: Clone> DataService<T> {
    /// The configuration the service was built with.
    pub closed spec fn spec_config(&self) -> Config {
        self.config
    }

    /// The stored entities, keyed.
    pub closed spec fn spec_storage(&self) -> Seq<(String, T)> {
        self.storage@
    }

    /// A service with the given configuration and empty storage.
    pub fn new(config: Config) -> (r: Self)
        ensures
            r.spec_config() == config,
            r.spec_storage() == Seq::<(String, T)>::empty(),
    {
        let r = DataService { config, storage: Vec::new() };
        proof {
            assert(r.spec_storage() =~= Seq::<(String, T)>::empty());
        }
        r
    }

    /// A service with the stock configuration and empty storage.
    pub fn with_defaults() -> (r: Self)
        ensures
            r.spec_config().api_url@ == "https://api.example.com"@,
            r.spec_config().timeout_millis == 5000,
            r.spec_config().retries == 3,
            r.spec_config().debug == false,
            r.spec_storage() == Seq::<(String, T)>::empty(),
    {
        Self::new(Config::default())
    }

    /// The configuration.
    pub fn config(&self) -> (r: &Config)
        ensures
            *r == self.spec_config(),
    {
        &self.config
    }

    /// Removes every stored entity; the configuration stays.
    pub fn clear(&mut self)
        ensures
            final(self).spec_storage() == Seq::<(String, T)>::empty(),
            final(self).spec_config() == old(self).spec_config(),
    {
        self.storage.clear();
        proof {
            assert(self.spec_storage() =~= Seq::<(String, T)>::empty());
        }
    }
}

/// Whether the characters start with the four of an absolute URL scheme
/// prefix.
pub open spec fn is_http_prefixed(s: Seq<char>) -> bool {
    s.len() >= 4 && s.subrange(0, 4) == "http"@
}

/// What a simulated response says: a map holding exactly the status, the
/// method and the URL of the request.
pub open spec fn is_response_of(m: Map<Seq<char>, String>, method: Seq<char>, url: Seq<char>) -> bool {
    &&& m.dom() == set!["status"@, "method"@, "url"@]
    &&& m["status"@]@ == "200"@
    &&& m["method"@]@ == method
    &&& m["url"@]@ == url
}

/// A client that builds request URLs from a configured base and answers
/// requests with a simulated response.
pub struct ApiClient {
    config: Config,
}

impl ApiClient {
    /// The configuration the client was built with.
    pub closed spec fn spec_config(&self) -> Config {
        self.config
    }

    /// A client with the given configuration.
    pub fn new(config: Config) -> (r: Self)
        ensures
            r.spec_config() == config,
    {
        ApiClient { config }
    }

    /// The full URL for a path: the path itself where it is already
    /// absolute, otherwise the configured base followed by the path.
    pub fn build_url(&self, path: &str) -> (r: String)
        ensures
            is_http_prefixed(path@) ==> r@ == path@,
            !is_http_prefixed(path@) ==> r@ == self.spec_config().api_url@ + path@,
    {
        proof {
            reveal_strlit("http");
        }
        if str_starts_with(path, "http") {
            path.to_owned()
        } else {
            self.config.api_url.clone().concat(path)
        }
    }

    /// The simulated response to a request: a map holding the status `200`,
    /// the method and the URL.  The data, where given, is ignored.
    pub fn request(&self, method: &str, url: &str, _data: Option<StringMap>) -> (r: Result<
        StringMap,
        String,
    >)
        ensures
            r matches Ok(m) && m.wf() && is_response_of(m@, method@, url@),
    {
        let mut result = StringMap::new();
        result.insert("status".to_owned(), "200".to_owned());
        result.insert("method".to_owned(), method.to_owned());
        result.insert("url".to_owned(), url.to_owned());
        proof {
            reveal_strlit("status");
            reveal_strlit("method");
            reveal_strlit("url");
            assert("status"@.len() == 6 && "method"@.len() == 6 && "url"@.len() == 3);
            assert("status"@[0] == 's' && "method"@[0] == 'm');
            assert("status"@ != "method"@ && "status"@ != "url"@ && "method"@ != "url"@);
            assert(result@.dom() =~= set!["status"@, "method"@, "url"@]);
        }
        Ok(result)
    }
}

/// A data service with the stock configuration.
pub fn create_service<T: Clone>() -> (r: DataService<T>)
    ensures
        r.spec_config().api_url@ == "https://api.example.com"@,
        r.spec_config().timeout_millis == 5000,
        r.spec_config().retries == 3,
        r.spec_config().debug == false,
        r.spec_storage() == Seq::<(String, T)>::empty(),
{
    DataService::with_defaults()
}

/// A client with the stock configuration.
pub fn create_api_client() -> (r: ApiClient)
    ensures
        r.spec_config().api_url@ == "https://api.example.com"@,
        r.spec_config().timeout_millis == 5000,
        r.spec_config().retries == 3,
        r.spec_config().debug == false,
{
    ApiClient::new(Config::default())
}

} // verus!

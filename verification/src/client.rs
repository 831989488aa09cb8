//! The client: connection parameters and the deterministic parts of the
//! fetch and cache-update operations.
//!
//! The HTTP round trip and the disk write are not here: a thin layer
//! around this crate performs them, asking this module for the request
//! URL, the cache file path and the cache file content, and reporting a
//! successful write back through [`ApolloClient::commit_release_key`].

use vstd::prelude::*;
use vstd::string::StrSliceExecFns;
use vstd::string::StringExecFns;

verus! {

/// Connection parameters for the configuration service, and the release
/// key last persisted by a cache update.
///
/// The connection parameters are set at construction and are not changed
/// by any operation here; `release_key` is the one field that moves, and
/// only when a cache write succeeded.
#[derive(Debug, Clone)]
pub struct ApolloClient {
    /// Base URL of the configuration service.
    pub config_server_url: String,
    /// Application identifier.
    pub app_id: String,
    /// Cluster (deployment grouping) to fetch configuration for.
    pub cluster_name: String,
    /// IP of the machine this application runs on, if it should be reported.
    pub ip: Option<String>,
    /// Directory the cache files are written under.
    pub cache_path: String,
    /// Release key of the last snapshot a cache update persisted.
    pub release_key: Option<String>,
}

/// Why building a client failed.
#[derive(Debug, PartialEq, Eq)]
pub enum ApolloClientBuilderError {
    /// A field was never given a value; the name says which one.
    UninitializedField(String),
}

/// Step-by-step construction of an [`ApolloClient`]; every field must be
/// set before `build`.
#[derive(Debug, Clone)]
pub struct ApolloClientBuilder {
    pub config_server_url: Option<String>,
    pub app_id: Option<String>,
    pub cluster_name: Option<String>,
    pub ip: Option<Option<String>>,
    pub cache_path: Option<String>,
    pub release_key: Option<Option<String>>,
}

impl Default for ApolloClientBuilder {
    /// A builder with no field set yet.
    fn default() -> (r: Self)
        ensures
            r.config_server_url is None,
            r.app_id is None,
            r.cluster_name is None,
            r.ip is None,
            r.cache_path is None,
            r.release_key is None,
    {
        ApolloClientBuilder {
            config_server_url: None,
            app_id: None,
            cluster_name: None,
            ip: None,
            cache_path: None,
            release_key: None,
        }
    }
}

impl ApolloClientBuilder {
    /// Set the base URL of the configuration service.
    pub fn config_server_url(self, value: String) -> (r: Self)
        ensures
            r == (Self { config_server_url: Some(value), ..self }),
    {
        Self { config_server_url: Some(value), ..self }
    }

    /// Set the application identifier.
    pub fn app_id(self, value: String) -> (r: Self)
        ensures
            r == (Self { app_id: Some(value), ..self }),
    {
        Self { app_id: Some(value), ..self }
    }

    /// Set the cluster name.
    pub fn cluster_name(self, value: String) -> (r: Self)
        ensures
            r == (Self { cluster_name: Some(value), ..self }),
    {
        Self { cluster_name: Some(value), ..self }
    }

    /// Set the reported IP, or its absence.
    pub fn ip(self, value: Option<String>) -> (r: Self)
        ensures
            r == (Self { ip: Some(value), ..self }),
    {
        Self { ip: Some(value), ..self }
    }

    /// Set the cache directory.
    pub fn cache_path(self, value: String) -> (r: Self)
        ensures
            r == (Self { cache_path: Some(value), ..self }),
    {
        Self { cache_path: Some(value), ..self }
    }

    /// Set the initial release key, or its absence.
    pub fn release_key(self, value: Option<String>) -> (r: Self)
        ensures
            r == (Self { release_key: Some(value), ..self }),
    {
        Self { release_key: Some(value), ..self }
    }

    /// The client the settings describe: every field must have been set,
    /// and the first one that was not, in declaration order, is named in
    /// the error.
    pub fn build(&self) -> (r: Result<ApolloClient, ApolloClientBuilderError>)
        ensures
            (r is Ok) <==> (self.config_server_url is Some && self.app_id is Some
                && self.cluster_name is Some && self.ip is Some && self.cache_path is Some
                && self.release_key is Some),
            r matches Ok(c) ==> c.config_server_url == self.config_server_url->0 && c.app_id
                == self.app_id->0 && c.cluster_name == self.cluster_name->0 && c.ip == self.ip->0
                && c.cache_path == self.cache_path->0 && c.release_key == self.release_key->0,
            self.config_server_url is None ==> (r matches Err(
                ApolloClientBuilderError::UninitializedField(n),
            ) && n@ == "config_server_url"@),
            self.config_server_url is Some && self.app_id is None ==> (r matches Err(
                ApolloClientBuilderError::UninitializedField(n),
            ) && n@ == "app_id"@),
            self.config_server_url is Some && self.app_id is Some && self.cluster_name is None
                ==> (r matches Err(ApolloClientBuilderError::UninitializedField(n)) && n@
                == "cluster_name"@),
            self.config_server_url is Some && self.app_id is Some && self.cluster_name is Some
                && self.ip is None ==> (r matches Err(
                ApolloClientBuilderError::UninitializedField(n),
            ) && n@ == "ip"@),
            self.config_server_url is Some && self.app_id is Some && self.cluster_name is Some
                && self.ip is Some && self.cache_path is None ==> (r matches Err(
                ApolloClientBuilderError::UninitializedField(n),
            ) && n@ == "cache_path"@),
            self.config_server_url is Some && self.app_id is Some && self.cluster_name is Some
                && self.ip is Some && self.cache_path is Some && self.release_key is None ==> (
            r matches Err(ApolloClientBuilderError::UninitializedField(n)) && n@
                == "release_key"@),
    {
        let config_server_url = match &self.config_server_url {
            Some(v) => v.clone(),
            None => {
                return Err(
                    ApolloClientBuilderError::UninitializedField(
                        String::from_str("config_server_url"),
                    ),
                );
            },
        };
        let app_id = match &self.app_id {
            Some(v) => v.clone(),
            None => {
                return Err(
                    ApolloClientBuilderError::UninitializedField(String::from_str("app_id")),
                );
            },
        };
        let cluster_name = match &self.cluster_name {
            Some(v) => v.clone(),
            None => {
                return Err(
                    ApolloClientBuilderError::UninitializedField(
                        String::from_str("cluster_name"),
                    ),
                );
            },
        };
        let ip = match &self.ip {
            Some(Some(v)) => Some(v.clone()),
            Some(None) => None,
            None => {
                return Err(ApolloClientBuilderError::UninitializedField(String::from_str("ip")));
            },
        };
        let cache_path = match &self.cache_path {
            Some(v) => v.clone(),
            None => {
                return Err(
                    ApolloClientBuilderError::UninitializedField(String::from_str("cache_path")),
                );
            },
        };
        let release_key = match &self.release_key {
            Some(Some(v)) => Some(v.clone()),
            Some(None) => None,
            None => {
                return Err(
                    ApolloClientBuilderError::UninitializedField(String::from_str("release_key")),
                );
            },
        };
        Ok(
            ApolloClient {
                config_server_url,
                app_id,
                cluster_name,
                ip,
                cache_path,
                release_key,
            },
        )
    }
}

// ---------------------------------------------------------------------------
// What the operations compute.
// ---------------------------------------------------------------------------

/// The request URL for one namespace's latest release: the path template
/// around the connection parameters, with the `ip` query parameter
/// present exactly when a caller IP was supplied and the namespace
/// defaulting to `application` exactly when none was.
pub open spec fn spec_request_url(
    base: Seq<char>,
    app: Seq<char>,
    cluster: Seq<char>,
    ns: Option<Seq<char>>,
    ip: Option<Seq<char>>,
) -> Seq<char> {
    base + "/apps/"@ + app + "/clusters/"@ + cluster + "/namespaces/"@ + (match ns {
        Some(n) => n,
        None => "application"@,
    }) + "/releases/latest"@ + (match ip {
        Some(p) => "?ip="@ + p,
        None => Seq::<char>::empty(),
    })
}

/// The cache file name for one application and namespace.
pub open spec fn spec_cache_file_name(app: Seq<char>, ns: Seq<char>) -> Seq<char> {
    app + "_configuration_"@ + ns + ".txt"@
}

/// The cache file path: the file name under the cache directory, with a
/// separator added only where the directory does not already end in one.
pub open spec fn spec_cache_file_path(dir: Seq<char>, app: Seq<char>, ns: Seq<char>) -> Seq<
    char,
> {
    if dir.len() == 0 {
        spec_cache_file_name(app, ns)
    } else if dir.last() == '/' {
        dir + spec_cache_file_name(app, ns)
    } else {
        dir + "/"@ + spec_cache_file_name(app, ns)
    }
}

/// Whether an HTTP status code is the one the connectivity check accepts.
pub fn is_success_status(status: u16) -> (r: bool)
    ensures
        r == (status == 200),
{
    status == 200
}

impl ApolloClient {
    /// A client for the given application, with every other parameter at
    /// its default: a local service, the `default` cluster, no reported
    /// IP, the `config/` cache directory, and no release key seen yet.
    pub fn new(app_id: String) -> (r: Self)
        ensures
            r.config_server_url@ == "http://localhost:8090"@,
            r.app_id == app_id,
            r.cluster_name@ == "default"@,
            r.ip is None,
            r.cache_path@ == "config/"@,
            r.release_key is None,
    {
        Self {
            config_server_url: String::from_str("http://localhost:8090"),
            app_id,
            cluster_name: String::from_str("default"),
            ip: None,
            cache_path: String::from_str("config/"),
            release_key: None,
        }
    }

    /// A builder with no field set yet.
    pub fn builder() -> (r: ApolloClientBuilder)
        ensures
            r.config_server_url is None,
            r.app_id is None,
            r.cluster_name is None,
            r.ip is None,
            r.cache_path is None,
            r.release_key is None,
    {
        ApolloClientBuilder::default()
    }

    /// The URL a fetch for the given namespace requests, with the given
    /// caller IP as its one query parameter when supplied.
    pub fn request_url(&self, namespace: &Option<String>, client_ip: &Option<String>) -> (r:
        String)
        ensures
            r@ == spec_request_url(
                self.config_server_url@,
                self.app_id@,
                self.cluster_name@,
                (match namespace {
                    Some(n) => Some(n@),
                    None => None,
                }),
                (match client_ip {
                    Some(p) => Some(p@),
                    None => None,
                }),
            ),
    {
        let mut url = self.config_server_url.clone();
        url.append("/apps/");
        url.append(self.app_id.as_str());
        url.append("/clusters/");
        url.append(self.cluster_name.as_str());
        url.append("/namespaces/");
        match namespace {
            Some(n) => url.append(n.as_str()),
            None => url.append("application"),
        }
        url.append("/releases/latest");
        match client_ip {
            Some(p) => {
                url.append("?ip=");
                url.append(p.as_str());
            },
            None => (),
        }
        proof {
            assert(url@ =~= spec_request_url(
                self.config_server_url@,
                self.app_id@,
                self.cluster_name@,
                (match namespace {
                    Some(n) => Some(n@),
                    None => None,
                }),
                (match client_ip {
                    Some(p) => Some(p@),
                    None => None,
                }),
            ));
        }
        url
    }

    /// The path a cache update for the given namespace writes to.
    pub fn cache_file_path(&self, namespace: &str) -> (r: String)
        ensures
            r@ == spec_cache_file_path(self.cache_path@, self.app_id@, namespace@),
    {
        let mut p = self.cache_path.clone();
        let n = self.cache_path.as_str().unicode_len();
        if n > 0 && self.cache_path.as_str().get_char(n - 1) != '/' {
            p.append("/");
        }
        p.append(self.app_id.as_str());
        p.append("_configuration_");
        p.append(namespace);
        p.append(".txt");
        proof {
            assert(p@ =~= spec_cache_file_path(self.cache_path@, self.app_id@, namespace@));
        }
        p
    }

    /// Record the release key of the snapshot a cache write just
    /// persisted.  Only the remembered release key moves; every
    /// connection parameter stays as it was.  An older key silently
    /// replaces a newer one: ordering is the caller's to enforce.
    pub fn commit_release_key(&mut self, release_key: &str)
        ensures
            final(self).release_key matches Some(k) && k@ == release_key@,
            final(self).config_server_url == old(self).config_server_url,
            final(self).app_id == old(self).app_id,
            final(self).cluster_name == old(self).cluster_name,
            final(self).ip == old(self).ip,
            final(self).cache_path == old(self).cache_path,
    {
        self.release_key = Some(String::from_str(release_key));
    }
}

} // verus!

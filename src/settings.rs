use vstd::prelude::*;
use vstd::string::StringExecFns;

verus! {

/// Every setting the service is configured with.
pub struct Settings {
    pub application: ApplicationSettings,
    pub telemetry: AxiomSettings,
    pub debug: bool,
    pub redis: RedisSettings,
    pub secret: Secret,
    pub email: EmailSettings,
    pub frontend_url: String,
}

/// Keys and lifetimes used to sign session and confirmation tokens.
pub struct Secret {
    pub secret_key: String,
    pub token_expiration: i64,
    pub hmac_secret: String,
}

/// Outgoing mail server.
pub struct EmailSettings {
    pub host: String,
    pub host_user: String,
    pub host_user_password: String,
}

/// Connection pool limits for the session store.
pub struct RedisSettings {
    pub pool_max_open: u64,
    pub pool_max_idle: u64,
    pub pool_timeout_seconds: u64,
    pub pool_expire_seconds: u64,
}

/// Where the service listens and how it is reached.
pub struct ApplicationSettings {
    pub port: u16,
    pub host: String,
    pub base_url: String,
    pub protocol: String,
}

/// Log shipping destination.
pub struct AxiomSettings {
    pub token: String,
    pub dataset: String,
}

/// The runtime environment the service is deployed in.
#[derive(PartialEq, Eq, Structural, Clone, Copy, Debug)]
pub enum Environment {
    Development,
    Production,
}

/// Name of an environment, as configuration files are named.
pub open spec fn environment_name(e: Environment) -> Seq<char> {
    match e {
        Environment::Development => "development"@,
        Environment::Production => "production"@,
    }
}

/// The environment named exactly `s`, if any.
pub open spec fn environment_named(s: Seq<char>) -> Option<Environment> {
    if s == "development"@ {
        Some(Environment::Development)
    } else if s == "production"@ {
        Some(Environment::Production)
    } else {
        None
    }
}

/// What `str::to_lowercase` returns for `s`.
pub uninterp spec fn lowercase_of(s: Seq<char>) -> Seq<char>;

/// Relies on `str::to_lowercase`: its result depends on the characters alone.
#[verifier::external_body]
fn lowercase(s: &str) -> (r: String)
    ensures
        r@ == lowercase_of(s@),
{
    s.to_lowercase()
}

fn same_text(a: &str, b: &str) -> (r: bool)
    ensures
        r == (a@ == b@),
{
    let x = String::from_str(a);
    let y = String::from_str(b);
    x == y
}

impl Environment {
    /// Name of the environment.
    pub fn as_str(&self) -> (r: &'static str)
        ensures
            r@ == environment_name(*self),
    {
        match self {
            Environment::Development => "development",
            Environment::Production => "production",
        }
    }

    /// Reads an environment from a name that is already lower case.
    pub fn from_lowercase(folded: &str) -> (r: Result<Environment, String>)
        ensures
            environment_named(folded@) is Some ==> r == Ok::<Environment, String>(
                environment_named(folded@)->0,
            ),
            environment_named(folded@) is None ==> r is Err && r->Err_0@ == folded@
                + " is not a supported environment. Use either `development` or `production`."@,
    {
        if same_text(folded, "development") {
            Ok(Environment::Development)
        } else if same_text(folded, "production") {
            Ok(Environment::Production)
        } else {
            let mut e = String::from_str(folded);
            e.append(" is not a supported environment. Use either `development` or `production`.");
            Err(e)
        }
    }

    /// Reads an environment name, ignoring case.
    pub fn try_from(s: String) -> (r: Result<Environment, String>)
        ensures
            environment_named(lowercase_of(s@)) is Some ==> r == Ok::<Environment, String>(
                environment_named(lowercase_of(s@))->0,
            ),
            environment_named(lowercase_of(s@)) is None ==> r is Err && r->Err_0@
                == lowercase_of(s@)
                + " is not a supported environment. Use either `development` or `production`."@,
    {
        let folded = lowercase(s.as_str());
        Environment::from_lowercase(folded.as_str())
    }
}

/// Every environment is read back from its own name.
pub proof fn lemma_environment_name_round_trip(e: Environment)
    ensures
        environment_named(environment_name(e)) == Some(e),
{
    reveal_strlit("development");
    reveal_strlit("production");
    assert("development"@.len() != "production"@.len());
}

} // verus!

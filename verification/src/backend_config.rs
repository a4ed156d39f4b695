//! Where the database is, and as whom to log in to it.

use bytes::Bytes;
use vstd::prelude::*;
use vstd::string::{StringExecFns, StringSliceAdditionalSpecFns};
use vstd::utf8::encode_utf8;

use crate::buffer::{buf_bytes, buf_freeze, buf_new, shared_bytes};
use crate::postgres_wire::{
    length_fits, parameter_bytes, put_startup_message, sized, startup_frame, unwritable,
    STARTUP_MESSAGE,
};
use crate::rds_token::{
    connect_request, get_rds_password, outcome, rds_token, AwsCredentials, CredentialsView,
    TokenError, TokenOutcome, END_OF_TIME,
};
use crate::text::{decimal, decimal_text, digits_value, io_text, law_decimal_reads_back};
use crate::wire::{be_i32, cstr, lemma_be_bytes_len, lemma_encode_nul_free, nul_free};

verus! {

/// The user and the database that a client asked for.
#[derive(Debug)]
pub struct DbSpec {
    user: String,
    database: String,
}

/// A `DbSpec` as text.
pub struct DbSpecView {
    pub user: Seq<char>,
    pub database: Seq<char>,
}

impl View for DbSpec {
    type V = DbSpecView;

    closed spec fn view(&self) -> DbSpecView {
        DbSpecView { user: self.user@, database: self.database@ }
    }
}

impl DbSpecView {
    /// What is said of the startup message if it cannot be written.
    pub open spec fn startup_fault(self) -> Option<Seq<char>> {
        let texts_nul_free = !self.user.contains('\0') && !self.database.contains('\0');
        if texts_nul_free && length_fits(self.startup_frame().len()) {
            None
        } else {
            Some(unwritable(texts_nul_free))
        }
    }

    /// The parameters of the startup message, as they stand on the wire.
    pub open spec fn parameters(self) -> Seq<u8> {
        cstr("client_encoding"@) + cstr("UTF8"@) + cstr("user"@) + cstr(self.user) + cstr(
            "database"@,
        ) + cstr(self.database)
    }

    /// The startup message that opens a session for this user on this database.
    pub open spec fn startup_frame(self) -> Seq<u8> {
        sized(be_i32(STARTUP_MESSAGE as int) + self.parameters() + seq![0u8])
    }
}

impl DbSpec {
    pub fn new(user: String, database: String) -> (spec: DbSpec)
        ensures
            spec@.user == user@,
            spec@.database == database@,
    {
        DbSpec { user, database }
    }

    pub fn user(&self) -> (user: &str)
        ensures
            user@ == self@.user,
    {
        self.user.as_str()
    }

    pub fn database(&self) -> (database: &str)
        ensures
            database@ == self@.database,
    {
        self.database.as_str()
    }

    /// Tells whether the startup message fits memory.
    pub fn startup_fits(&self) -> (fits: bool)
        ensures
            fits <==> self@.startup_frame().len() <= isize::MAX,
    {
        proof {
            let body = be_i32(STARTUP_MESSAGE as int) + self@.parameters() + seq![0u8];
            lemma_be_bytes_len((STARTUP_MESSAGE as int % 0x1_0000_0000) as nat, 4);
            lemma_be_bytes_len(((body.len() as int + 4) % 0x1_0000_0000) as nat, 4);
        }
        let names: u128 = "client_encoding".as_bytes().len() as u128 + "UTF8".as_bytes().len()
            as u128 + "user".as_bytes().len() as u128 + "database".as_bytes().len() as u128 + 4;
        let values: u128 = self.user.as_str().as_bytes().len() as u128
            + self.database.as_str().as_bytes().len() as u128 + 2;
        8 + names + values + 1 <= isize::MAX as u128
    }

    /// The startup message for this user and database. It cannot be written if either name has a
    /// NUL character or the message would not fit its length field.
    pub fn startup_message(&self) -> (message: Result<Bytes, std::io::Error>)
        requires
            self@.startup_frame().len() <= isize::MAX,
        ensures
            match message {
                Ok(bytes) => self@.startup_fault() is None && shared_bytes(bytes)
                    == self@.startup_frame(),
                Err(e) => self@.startup_fault() == Some(io_text(e)),
            },
    {
        let mut params: Vec<(&str, &str)> = vec![("client_encoding", "UTF8")];
        params.push(("user", self.user.as_str()));
        params.push(("database", self.database.as_str()));
        proof {
            reveal_with_fuel(parameter_bytes, 4);
            assert(params@.drop_last().drop_last().drop_last() =~= Seq::<(&str, &str)>::empty());
            assert(parameter_bytes(params@) =~= self@.parameters());
            lemma_encode_nul_free(self@.user);
            lemma_encode_nul_free(self@.database);
            assert(nul_free("client_encoding".spec_bytes()) && nul_free("UTF8".spec_bytes())
                && nul_free("user".spec_bytes()) && nul_free("database".spec_bytes())) by {
                reveal_strlit("client_encoding");
                reveal_strlit("UTF8");
                reveal_strlit("user");
                reveal_strlit("database");
                lemma_encode_nul_free("client_encoding"@);
                lemma_encode_nul_free("UTF8"@);
                lemma_encode_nul_free("user"@);
                lemma_encode_nul_free("database"@);
            }
            assert(params@[1].1@ == self@.user);
            assert(params@[2].1@ == self@.database);
        }
        let mut buf = buf_new();
        match put_startup_message(&params, &mut buf) {
            Ok(()) => {
                proof {
                    assert(buf_bytes(buf) =~= self@.startup_frame());
                }
                Ok(buf_freeze(buf))
            },
            Err(e) => Err(e),
        }
    }
}

/// A host and a port.
#[derive(Clone, Debug)]
pub struct Addr {
    pub hostname: String,
    pub port: u16,
}

impl Addr {
    /// The address in the form that a connection is opened with.
    pub open spec fn connect_text(self) -> Seq<char> {
        self.hostname@ + ":"@ + decimal(self.port as nat)
    }

    pub fn connect_str(&self) -> (text: String)
        ensures
            text@ == self.connect_text(),
    {
        let mut text = self.hostname.clone();
        text.append(":");
        text.append(decimal_text(self.port as u64).as_str());
        text
    }
}

/// The kind of database behind the proxy.
#[derive(Clone, Copy, Debug, PartialEq, Eq, Structural)]
pub enum DbType {
    Postgres,
    Mysql,
}

/// The database behind the proxy, and how to reach it.
#[derive(Clone, Debug)]
pub struct BackendConfig {
    pub db_type: DbType,
    pub endpoint: Addr,
    pub region: String,
    pub proxy_endpoint: Option<Addr>,
    /// Path to a custom CA bundle PEM file. When set, this is used instead of
    /// the RDS global bundle to validate the server certificate.
    pub ca_bundle: Option<String>,
    /// Skip TLS certificate validation entirely. Only intended for use with
    /// SSH tunnels to localhost where the certificate hostname will not match.
    pub danger_accept_invalid_certs: bool,
    /// The password that clients of the proxy must give, if any.
    pub local_password: Option<String>,
}

/// What it takes to open a session with the database.
pub struct ServerPlan {
    pub address: String,
    pub password: String,
    /// Whether the server has to be asked for TLS first. A MySQL server is asked in its own way.
    pub asks_for_tls: bool,
}

impl BackendConfig {
    /// Where the connection goes: to the tunnel or relay, if there is one.
    pub fn connect_endpoint(&self) -> (addr: &Addr)
        ensures
            *addr == (match self.proxy_endpoint {
                Some(proxy) => proxy,
                None => self.endpoint,
            }),
    {
        match self.proxy_endpoint {
            Some(ref proxy) => proxy,
            None => &self.endpoint,
        }
    }

    /// The text of the address that the connection goes to.
    pub fn connect_str(&self) -> (text: String)
        ensures
            text@ == (match self.proxy_endpoint {
                Some(proxy) => proxy.connect_text(),
                None => self.endpoint.connect_text(),
            }),
    {
        self.connect_endpoint().connect_str()
    }

    /// Plans a session for this user: where the connection goes, with which token, and whether the
    /// server has to be asked for TLS. The token is one for the database's own endpoint, whatever
    /// address the connection goes to.
    pub fn get_server_conn(
        &self,
        db_spec: &DbSpec,
        credentials: &AwsCredentials,
        now: u64,
    ) -> (plan: Result<ServerPlan, TokenError>)
        requires
            now < END_OF_TIME,
        ensures
            match plan {
                Ok(plan) => {
                    &&& TokenOutcome::Token(plan.password@) == self.token_outcome(
                        db_spec@,
                        credentials@,
                        now,
                    )
                    &&& plan.address@ == (match self.proxy_endpoint {
                        Some(proxy) => proxy.connect_text(),
                        None => self.endpoint.connect_text(),
                    })
                    &&& plan.asks_for_tls == (self.db_type == DbType::Postgres)
                },
                Err(e) => outcome(Err(e)) == self.token_outcome(db_spec@, credentials@, now),
            },
    {
        let token = get_rds_password(
            self.endpoint.hostname.as_str(),
            self.endpoint.port,
            self.region.as_str(),
            db_spec.user(),
            credentials,
            now,
        );
        self.plan_for(token)
    }

    /// Plans a session with the token that came of asking for one. Without a token there is no
    /// session, and the error is passed on.
    pub fn plan_for(&self, token: Result<String, TokenError>) -> (plan: Result<
        ServerPlan,
        TokenError,
    >)
        ensures
            match token {
                Ok(password) => {
                    &&& plan matches Ok(plan)
                    &&& plan.password@ == password@
                    &&& plan.address@ == (match self.proxy_endpoint {
                        Some(proxy) => proxy.connect_text(),
                        None => self.endpoint.connect_text(),
                    })
                    &&& plan.asks_for_tls == (self.db_type == DbType::Postgres)
                },
                Err(e) => plan == Err::<ServerPlan, TokenError>(e),
            },
    {
        match token {
            Ok(password) => Ok(
                ServerPlan {
                    address: self.connect_str(),
                    password,
                    asks_for_tls: match self.db_type {
                        DbType::Postgres => true,
                        DbType::Mysql => false,
                    },
                },
            ),
            Err(e) => Err(e),
        }
    }

    /// What comes of asking for a token for this user.
    pub open spec fn token_outcome(
        self,
        db: DbSpecView,
        credentials: CredentialsView,
        now: u64,
    ) -> TokenOutcome {
        rds_token(
            self.endpoint.hostname@,
            self.endpoint.port,
            self.region@,
            db.user,
            credentials,
            now,
        )
    }

    /// The password that clients of the proxy must give, if any.
    pub fn local_password(&self) -> (password: Option<&str>)
        ensures
            match (password, self.local_password) {
                (Some(given), Some(held)) => given@ == held@,
                (None, None) => true,
                _ => false,
            },
    {
        match &self.local_password {
            Some(password) => Some(password.as_str()),
            None => None,
        }
    }
}

/// The way to the database changes the address that is connected to and nothing else: the token is
/// the same through any proxy.
pub proof fn law_proxy_changes_no_token(
    config: BackendConfig,
    other: BackendConfig,
    db: DbSpecView,
    credentials: CredentialsView,
    now: u64,
)
    requires
        other == (BackendConfig { proxy_endpoint: other.proxy_endpoint, ..config }),
    ensures
        config.token_outcome(db, credentials, now) == other.token_outcome(db, credentials, now),
{
}

/// The bytes of a startup message: its length and the version 3.0 of the protocol, highest byte
/// first, then the names and values of three parameters, each with a zero byte behind, and one more
/// zero byte.
pub proof fn law_startup_frame_bytes(db: DbSpecView)
    ensures
        ({
            let sent = db.startup_frame();
            let parameters = encode_utf8("client_encoding"@).push(0) + encode_utf8("UTF8"@).push(0)
                + encode_utf8("user"@).push(0) + encode_utf8(db.user).push(0) + encode_utf8(
                "database"@,
            ).push(0) + encode_utf8(db.database).push(0);
            &&& sent.len() == 8 + parameters.len() + 1
            &&& sent.take(4) == be_i32(sent.len() as int)
            &&& sent.subrange(4, 8) == seq![0u8, 3, 0, 0]
            &&& sent.skip(8) == parameters.push(0)
        }),
{
    let sent = db.startup_frame();
    let parameters = encode_utf8("client_encoding"@).push(0) + encode_utf8("UTF8"@).push(0)
        + encode_utf8("user"@).push(0) + encode_utf8(db.user).push(0) + encode_utf8(
        "database"@,
    ).push(0) + encode_utf8(db.database).push(0);
    reveal_with_fuel(crate::wire::be_bytes, 5);
    assert(be_i32(STARTUP_MESSAGE as int) =~= seq![0u8, 3, 0, 0]);
    assert(db.parameters() =~= parameters);
    let body = be_i32(STARTUP_MESSAGE as int) + parameters + seq![0u8];
    lemma_be_bytes_len(((body.len() as int + 4) % 0x1_0000_0000) as nat, 4);
    assert(sent.take(4) =~= be_i32(sent.len() as int));
    assert(sent.subrange(4, 8) =~= seq![0u8, 3, 0, 0]);
    assert(sent.skip(8) =~= parameters.push(0));
}

/// Whether a startup message can be written: a NUL character in either name is in the way, and so
/// is a length that four bytes with a sign cannot tell.
pub proof fn law_startup_fault(db: DbSpecView)
    ensures
        (db.user.contains('\0') || db.database.contains('\0')) ==> db.startup_fault() == Some(
            "string contains embedded null"@,
        ),
        (!db.user.contains('\0') && !db.database.contains('\0')) ==> db.startup_fault() == (
        if db.startup_frame().len() <= 0x7FFF_FFFF {
            None
        } else {
            Some("value too large to transmit"@)
        }),
{
}

/// An address is the host name, a colon, and the digits of the port; addresses with different ports
/// are different.
pub proof fn law_address_names_the_port(addr: Addr, other: Addr)
    ensures
        addr.connect_text().len() > addr.hostname@.len() + 1,
        addr.connect_text().take(addr.hostname@.len() as int) == addr.hostname@,
        addr.connect_text()[addr.hostname@.len() as int] == ':',
        digits_value(addr.connect_text().skip(addr.hostname@.len() as int + 1)) == addr.port,
        (addr.hostname@ == other.hostname@ && addr.port != other.port) ==> addr.connect_text()
            != other.connect_text(),
{
    let text = addr.connect_text();
    let host = addr.hostname@.len() as int;
    reveal_strlit(":");
    law_decimal_reads_back(addr.port as nat);
    law_decimal_reads_back(other.port as nat);
    assert(text.take(host) =~= addr.hostname@);
    assert(text.skip(host + 1) =~= decimal(addr.port as nat));
    assert(other.connect_text().skip(other.hostname@.len() as int + 1) =~= decimal(
        other.port as nat,
    ));
}

/// The token that a session is planned with is one for the database's own host and port, in the
/// configured region, and for the user that the client named. The database that the client named
/// has no part in it.
pub proof fn law_token_is_for_user_and_endpoint(
    config: BackendConfig,
    db: DbSpecView,
    other: DbSpecView,
    credentials: CredentialsView,
    now: u64,
)
    ensures
        config.token_outcome(db, credentials, now) == rds_token(
            config.endpoint.hostname@,
            config.endpoint.port,
            config.region@,
            db.user,
            credentials,
            now,
        ),
        db.user == other.user ==> config.token_outcome(db, credentials, now)
            == config.token_outcome(other, credentials, now),
{
}

/// A token is asked for at the very address of the database: the request to connect, without its
/// scheme, starts with the address that a direct connection goes to.
pub proof fn law_token_request_names_the_endpoint(addr: Addr, username: Seq<char>)
    ensures
        connect_request(addr.hostname@, addr.port, username) == "https://"@ + addr.connect_text()
            + "/?Action=connect&DBUser="@ + username,
{
    assert(connect_request(addr.hostname@, addr.port, username) =~= "https://"@
        + addr.connect_text() + "/?Action=connect&DBUser="@ + username);
}

} // verus!

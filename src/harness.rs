use vstd::prelude::*;

verus! {

pub open spec fn is_lower_hex_digit(c: char) -> bool {
    ('0' <= c && c <= '9') || ('a' <= c && c <= 'f')
}

/// A UUID in its hyphenated lowercase form: 36 characters, hex digits in five
/// groups of 8, 4, 4, 4 and 12, joined by `-`.
pub open spec fn is_hyphenated_uuid(s: Seq<char>) -> bool {
    &&& s.len() == 36
    &&& forall|i: int|
        0 <= i < 36 ==> if i == 8 || i == 13 || i == 18 || i == 23 {
            #[trigger] s[i] == '-'
        } else {
            is_lower_hex_digit(s[i])
        }
}

/// A name that can stand between double quotes as a database identifier.
pub open spec fn is_quotable_identifier(s: Seq<char>) -> bool {
    s.len() > 0 && forall|i: int| 0 <= i < s.len() ==> #[trigger] s[i] != '"' && s[i] != '\0'
}

pub open spec fn create_database_sql(name: Seq<char>) -> Seq<char> {
    "CREATE DATABASE \""@ + name + "\";"@
}

/// Relies on `uuid::Uuid::new_v4` and the `Display` of `Uuid`: a random UUID,
/// written hyphenated in lowercase.
#[verifier::external_body]
fn random_uuid_text() -> (r: String)
    ensures
        is_hyphenated_uuid(r@),
{
    uuid::Uuid::new_v4().to_string()
}

/// The statement that creates an empty database called `name`, or `None` when
/// `name` cannot be quoted.
pub fn create_database_statement(name: &str) -> (r: Option<String>)
    ensures
        r is Some <==> is_quotable_identifier(name@),
        r matches Some(s) ==> s@ == create_database_sql(name@),
{
    let cs = crate::domain::chars_of(name);
    let mut i: usize = 0;
    while i < cs.len()
        invariant
            i <= cs@.len(),
            cs@ == name@,
            forall|j: int| 0 <= j < i ==> #[trigger] cs@[j] != '"' && cs@[j] != '\0',
        decreases cs@.len() - i,
    {
        if cs[i] == '"' || cs[i] == '\0' {
            return None;
        }
        i = i + 1;
    }
    if cs.len() == 0 {
        return None;
    }
    let mut s = String::from_str("CREATE DATABASE \"");
    s.append(name);
    s.append("\";");
    Some(s)
}

/// A database for one test run: a fresh name, and the statement that creates it.
#[derive(Debug)]
pub struct TestDatabase {
    pub name: String,
    pub create_statement: String,
}

/// Picks a random name for a throwaway database, and writes the statement that
/// creates it.
pub fn new_test_database() -> (db: TestDatabase)
    ensures
        is_hyphenated_uuid(db.name@),
        db.create_statement@ == create_database_sql(db.name@),
{
    let name = random_uuid_text();
    assert(is_quotable_identifier(name@)) by {
        assert forall|i: int| 0 <= i < name@.len() implies #[trigger] name@[i] != '"'
            && name@[i] != '\0' by {
            if !(i == 8 || i == 13 || i == 18 || i == 23) {
                assert(is_lower_hex_digit(name@[i]));
            }
        }
    }
    let create_statement = create_database_statement(name.as_str()).unwrap();
    TestDatabase { name, create_statement }
}

pub open spec fn digit_char(d: nat) -> char {
    if d == 0 { '0' } else if d == 1 { '1' } else if d == 2 { '2' } else if d == 3 { '3' }
    else if d == 4 { '4' } else if d == 5 { '5' } else if d == 6 { '6' } else if d == 7 { '7' }
    else if d == 8 { '8' } else { '9' }
}

/// `n` written in decimal, without leading zeros.
pub open spec fn decimal(n: nat) -> Seq<char>
    decreases n,
{
    if n < 10 {
        seq![digit_char(n)]
    } else {
        decimal(n / 10).push(digit_char(n % 10))
    }
}

fn digit_str(d: u16) -> (r: &'static str)
    requires
        d < 10,
    ensures
        r@ == seq![digit_char(d as nat)],
{
    proof {
        reveal_strlit("0");
        reveal_strlit("1");
        reveal_strlit("2");
        reveal_strlit("3");
        reveal_strlit("4");
        reveal_strlit("5");
        reveal_strlit("6");
        reveal_strlit("7");
        reveal_strlit("8");
        reveal_strlit("9");
    }
    if d == 0 { "0" } else if d == 1 { "1" } else if d == 2 { "2" } else if d == 3 { "3" }
    else if d == 4 { "4" } else if d == 5 { "5" } else if d == 6 { "6" } else if d == 7 { "7" }
    else if d == 8 { "8" } else { "9" }
}

fn append_decimal(s: &mut String, n: u16)
    ensures
        final(s)@ == old(s)@ + decimal(n as nat),
    decreases n,
{
    if n >= 10 {
        append_decimal(s, n / 10);
    }
    s.append(digit_str(n % 10));
}

proof fn lemma_decimal_len(n: nat)
    ensures
        decimal(n).len() >= 1,
        n >= 10 ==> decimal(n).len() >= 2,
    decreases n,
{
    if n >= 10 {
        lemma_decimal_len(n / 10);
    }
}

proof fn lemma_decimal_injective(a: nat, b: nat)
    requires
        decimal(a) == decimal(b),
    ensures
        a == b,
    decreases a,
{
    lemma_decimal_len(a);
    lemma_decimal_len(b);
    if a >= 10 && b >= 10 {
        assert(decimal(a).drop_last() == decimal(a / 10));
        assert(decimal(b).drop_last() == decimal(b / 10));
        lemma_decimal_injective(a / 10, b / 10);
        assert(decimal(a).last() == digit_char(a % 10));
        assert(decimal(b).last() == digit_char(b % 10));
        assert(a % 10 == b % 10);
        assert(a == (a / 10) * 10 + a % 10);
        assert(b == (b / 10) * 10 + b % 10);
    } else if a < 10 && b < 10 {
        assert(decimal(a)[0] == digit_char(a));
        assert(decimal(b)[0] == digit_char(b));
    }
}

pub open spec fn local_address(port: u16) -> Seq<char> {
    "http://127.0.0.1:"@ + decimal(port as nat)
}

/// The base address of a server listening on `port` of the loopback interface.
pub fn app_address(port: u16) -> (r: String)
    ensures
        r@ == local_address(port),
{
    let mut s = String::from_str("http://127.0.0.1:");
    append_decimal(&mut s, port);
    s
}


/// Servers listening on different ports have different base addresses.
pub proof fn lemma_distinct_ports_distinct_addresses(p: u16, q: u16)
    requires
        p != q,
    ensures
        local_address(p) != local_address(q),
{
    let prefix = "http://127.0.0.1:"@;
    reveal_strlit("http://127.0.0.1:");
    if local_address(p) == local_address(q) {
        assert(local_address(p).subrange(prefix.len() as int, local_address(p).len() as int)
            == decimal(p as nat));
        assert(local_address(q).subrange(prefix.len() as int, local_address(q).len() as int)
            == decimal(q as nat));
        lemma_decimal_injective(p as nat, q as nat);
    }
}

/// Where the store is, and how to log in to it.
#[derive(Debug)]
pub struct DatabaseSettings {
    pub username: String,
    pub password: String,
    pub host: String,
    pub port: u16,
    pub database_name: String,
}

pub open spec fn server_url(
    username: Seq<char>,
    password: Seq<char>,
    host: Seq<char>,
    port: u16,
) -> Seq<char> {
    "postgres://"@ + username + ":"@ + password + "@"@ + host + ":"@ + decimal(port as nat)
}

impl DatabaseSettings {
    pub open spec fn spec_server_url(&self) -> Seq<char> {
        server_url(self.username@, self.password@, self.host@, self.port)
    }

    /// The URL of the database server itself, for administrative statements.
    pub fn connection_string_without_db(&self) -> (r: String)
        ensures
            r@ == self.spec_server_url(),
    {
        let mut s = String::from_str("postgres://");
        s.append(self.username.as_str());
        s.append(":");
        s.append(self.password.as_str());
        s.append("@");
        s.append(self.host.as_str());
        s.append(":");
        append_decimal(&mut s, self.port);
        s
    }

    /// The URL of the database named in these settings.
    pub fn connection_string(&self) -> (r: String)
        ensures
            r@ == self.spec_server_url() + "/"@ + self.database_name@,
    {
        let mut s = self.connection_string_without_db();
        s.append("/");
        s.append(self.database_name.as_str());
        s
    }
}

} // verus!

use vstd::prelude::*;
use vstd::std_specs::iter::IteratorSpec;

verus! {

/// The chain a wallet follows.
#[derive(Clone, Copy, Debug, PartialEq, Eq, Structural)]
pub enum Network {
    MainNetwork,
    TestNetwork,
}

/// Operators of hosted servers, each with a list of servers per network.
#[derive(Clone, Copy, Debug, PartialEq, Eq, Structural)]
pub enum ServerOperator {
    Ecc,
    YWallet,
    ZecRocks,
}

// ---- Characters and decimal numbers ----

pub open spec fn is_digit(c: char) -> bool {
    '0' <= c && c <= '9'
}

pub open spec fn digit_value(c: char) -> nat {
    ((c as u32) - ('0' as u32)) as nat
}

/// The value of a string of decimal digits.
pub open spec fn digits_value(d: Seq<char>) -> nat
    decreases d.len(),
{
    if d.len() == 0 {
        0
    } else {
        digits_value(d.drop_last()) * 10 + digit_value(d.last())
    }
}

pub open spec fn all_digits(d: Seq<char>) -> bool {
    forall|i: int| 0 <= i < d.len() ==> is_digit(#[trigger] d[i])
}

/// A port number as the standard library reads a `u16`: an optional `+`,
/// then one or more decimal digits whose value fits in 16 bits.
pub open spec fn spec_parse_port(p: Seq<char>) -> Option<u16> {
    let d = if p.len() > 0 && p[0] == '+' {
        p.drop_first()
    } else {
        p
    };
    if d.len() > 0 && all_digits(d) && digits_value(d) <= u16::MAX {
        Some(digits_value(d) as u16)
    } else {
        None
    }
}

/// The decimal digit of `d < 10`.
pub open spec fn digit_char(d: nat) -> char {
    if d == 0 {
        '0'
    } else if d == 1 {
        '1'
    } else if d == 2 {
        '2'
    } else if d == 3 {
        '3'
    } else if d == 4 {
        '4'
    } else if d == 5 {
        '5'
    } else if d == 6 {
        '6'
    } else if d == 7 {
        '7'
    } else if d == 8 {
        '8'
    } else {
        '9'
    }
}

/// The decimal notation of `n`, without leading zeros.
pub open spec fn decimal(n: nat) -> Seq<char>
    decreases n,
{
    if n < 10 {
        seq![digit_char(n)]
    } else {
        decimal(n / 10).push(digit_char(n % 10))
    }
}

/// Position of the last `c` in `s`.
pub open spec fn last_index(s: Seq<char>, c: char) -> Option<int>
    decreases s.len(),
{
    if s.len() == 0 {
        None
    } else if s.last() == c {
        Some(s.len() - 1)
    } else {
        last_index(s.drop_last(), c)
    }
}

/// The pieces of `s` between the occurrences of `c`, read from the left; a
/// string without `c` is one piece, and so is an empty string.
pub open spec fn split_on(s: Seq<char>, c: char) -> Seq<Seq<char>>
    decreases s.len(),
{
    if s.len() == 0 {
        seq![Seq::empty()]
    } else {
        let t = split_on(s.drop_last(), c);
        if s.last() == c {
            t.push(Seq::empty())
        } else {
            t.update(t.len() - 1, t.last().push(s.last()))
        }
    }
}

proof fn lemma_split_nonempty(s: Seq<char>, c: char)
    ensures
        split_on(s, c).len() > 0,
    decreases s.len(),
{
    if s.len() > 0 {
        lemma_split_nonempty(s.drop_last(), c);
    }
}

proof fn lemma_last_index_bounds(s: Seq<char>, c: char)
    ensures
        last_index(s, c) matches Some(i) ==> 0 <= i < s.len() && s[i] == c && forall|j: int|
            i < j < s.len() ==> s[j] != c,
        last_index(s, c) is None ==> forall|j: int| 0 <= j < s.len() ==> s[j] != c,
    decreases s.len(),
{
    if s.len() > 0 {
        let t = s.drop_last();
        lemma_last_index_bounds(t, c);
        assert forall|j: int| 0 <= j < t.len() implies t[j] == s[j] by {}
    }
}

fn chars_of(s: &str) -> (r: Vec<char>)
    ensures
        r@ == s@,
{
    broadcast use vstd::string::axiom_spec_iter, vstd::string::next_postcondition;

    let mut it = s.chars();
    let mut out: Vec<char> = Vec::new();
    loop
        invariant
            out@ + it.remaining() == s@,
            it.decrease() is Some,
        ensures
            out@ == s@,
        decreases it.decrease()->0,
    {
        let ghost before = it;
        match it.next() {
            Some(c) => {
                out.push(c);
            },
            None => {
                proof {
                    assert(before.remaining().len() == 0);
                    assert(out@ + Seq::<char>::empty() == out@);
                }
                break ;
            },
        }
    }
    out
}

/// Relies on `String: FromIterator<char>`: the string of the characters `cs`.
#[verifier::external_body]
fn string_of(cs: &Vec<char>) -> (r: String)
    ensures
        r@ == cs@,
{
    cs.iter().collect()
}

fn chars_eq(a: &Vec<char>, b: &[char]) -> (r: bool)
    ensures
        r == (a@ == b@),
{
    if a.len() != b.len() {
        return false;
    }
    let mut i: usize = 0;
    while i < a.len()
        invariant
            a@.len() == b@.len(),
            i <= a@.len(),
            forall|j: int| 0 <= j < i ==> a@[j] == b@[j],
        decreases a@.len() - i,
    {
        if a[i] != b[i] {
            return false;
        }
        i = i + 1;
    }
    proof {
        assert(a@ =~= b@);
    }
    true
}

fn last_index_of(s: &Vec<char>, c: char) -> (r: Option<usize>)
    ensures
        match last_index(s@, c) {
            None => r is None,
            Some(i) => r == Some(i as usize),
        },
{
    let mut i: usize = s.len();
    assert(s@.take(i as int) == s@);
    while i > 0
        invariant
            i <= s@.len(),
            last_index(s@, c) == last_index(s@.take(i as int), c),
        decreases i,
    {
        assert(s@.take(i as int).drop_last() == s@.take(i - 1));
        if s[i - 1] == c {
            return Some(i - 1);
        }
        i = i - 1;
    }
    None
}

proof fn lemma_digits_value_grows(d: Seq<char>, i: int)
    requires
        0 <= i <= d.len(),
    ensures
        digits_value(d.take(i)) <= digits_value(d),
    decreases d.len(),
{
    if i < d.len() {
        assert(d.drop_last().take(i) == d.take(i));
        lemma_digits_value_grows(d.drop_last(), i);
    } else {
        assert(d.take(i) == d);
    }
}

/// Reads a port number from `s[lo..]`.
fn parse_port(s: &Vec<char>, lo: usize) -> (r: Option<u16>)
    requires
        lo <= s@.len(),
    ensures
        r == spec_parse_port(s@.skip(lo as int)),
{
    let ghost p = s@.skip(lo as int);
    let mut start = lo;
    if lo < s.len() && s[lo] == '+' {
        start = lo + 1;
    }
    let ghost d = s@.skip(start as int);
    assert(d == (if p.len() > 0 && p[0] == '+' { p.drop_first() } else { p }));
    if start >= s.len() {
        return None;
    }
    let mut acc: u32 = 0;
    let mut i: usize = start;
    while i < s.len()
        invariant
            start <= i <= s@.len(),
            p == s@.skip(lo as int),
            d == s@.skip(start as int),
            d == (if p.len() > 0 && p[0] == '+' { p.drop_first() } else { p }),
            d.len() > 0,
            acc as nat == digits_value(d.take(i - start)),
            acc <= u16::MAX,
            all_digits(d.take(i - start)),
        decreases s@.len() - i,
    {
        let c = s[i];
        proof {
            let t = d.take(i - start + 1);
            assert(t.drop_last() == d.take(i - start));
            assert(t.last() == c);
            lemma_digits_value_grows(d, i - start + 1);
        }
        if c < '0' || c > '9' {
            proof {
                assert(!is_digit(d[i - start]));
            }
            return None;
        }
        let v: u32 = (c as u32) - ('0' as u32);
        let next: u32 = acc * 10 + v;
        if next > 65535 {
            return None;
        }
        acc = next;
        i = i + 1;
        proof {
            assert forall|j: int| 0 <= j < i - start implies is_digit(#[trigger] d.take(i - start)[j]) by {
                if j < i - start - 1 {
                    assert(d.take(i - start)[j] == d.take(i - start - 1)[j]);
                }
            }
        }
    }
    proof {
        assert(d.take(i - start) == d);
    }
    Some(acc as u16)
}

/// The host and port of a `host:port` piece: the host is all before the last
/// `:`, the port all after it.
pub open spec fn spec_host_port(p: Seq<char>) -> Option<(Seq<char>, u16)> {
    match last_index(p, ':') {
        None => None,
        Some(i) => match spec_parse_port(p.skip(i + 1)) {
            Some(port) => Some((p.take(i), port)),
            None => None,
        },
    }
}

/// The servers of a comma-separated list of `host:port`, or `None` when a
/// piece is not of that form.
pub open spec fn spec_custom(s: Seq<char>) -> Option<Seq<(Seq<char>, u16)>> {
    let ps = split_on(s, ',');
    if forall|i: int| 0 <= i < ps.len() ==> (#[trigger] spec_host_port(ps[i])) is Some {
        Some(Seq::new(ps.len(), |i: int| spec_host_port(ps[i])->0))
    } else {
        None
    }
}

pub open spec fn char_views(v: Seq<Vec<char>>) -> Seq<Seq<char>> {
    v.map_values(|x: Vec<char>| x@)
}

fn split_commas(cs: &Vec<char>) -> (r: Vec<Vec<char>>)
    ensures
        char_views(r@) == split_on(cs@, ','),
{
    let mut pieces: Vec<Vec<char>> = Vec::new();
    let mut cur: Vec<char> = Vec::new();
    let mut i: usize = 0;
    proof {
        assert(cs@.take(0) == Seq::<char>::empty());
        assert(char_views(pieces@).push(cur@) =~= split_on(cs@.take(0), ','));
    }
    while i < cs.len()
        invariant
            i <= cs@.len(),
            char_views(pieces@).push(cur@) == split_on(cs@.take(i as int), ','),
        decreases cs@.len() - i,
    {
        let c = cs[i];
        proof {
            let t = cs@.take(i as int + 1);
            assert(t.drop_last() == cs@.take(i as int));
            assert(t.last() == c);
        }
        let ghost before = pieces@;
        let ghost cur0 = cur@;
        if c == ',' {
            let done = cur;
            pieces.push(done);
            cur = Vec::new();
            proof {
                assert(char_views(pieces@) =~= char_views(before).push(cur0));
                assert(char_views(pieces@).push(cur@) =~= char_views(before).push(cur0).push(
                    Seq::empty(),
                ));
            }
        } else {
            cur.push(c);
            proof {
                let t = char_views(before).push(cur0);
                assert(char_views(pieces@).push(cur@) =~= t.update(t.len() - 1, t.last().push(c)));
            }
        }
        i = i + 1;
    }
    pieces.push(cur);
    proof {
        assert(cs@.take(i as int) == cs@);
    }
    pieces
}

/// A server reachable at `host:port`.
#[derive(Debug)]
pub struct Server {
    host: String,
    port: u16,
}

impl View for Server {
    type V = (Seq<char>, u16);

    closed spec fn view(&self) -> (Seq<char>, u16) {
        (self.host@, self.port)
    }
}

pub open spec fn server_views(v: Seq<Server>) -> Seq<(Seq<char>, u16)> {
    v.map_values(|x: Server| x@)
}

/// Whether a host is a loopback address, which has no certificate.
pub open spec fn is_loopback(h: Seq<char>) -> bool {
    ||| h == seq!['l', 'o', 'c', 'a', 'l', 'h', 'o', 's', 't']
    ||| h == seq!['1', '2', '7', '.', '0', '.', '0', '.', '1']
    ||| h == seq![':', ':', '1']
}

/// The URL of a server: `https://host:port`, or `http://host:port` for a
/// loopback host.
pub open spec fn endpoint_of(h: Seq<char>, port: u16) -> Seq<char> {
    let scheme = if is_loopback(h) {
        seq!['h', 't', 't', 'p', ':', '/', '/']
    } else {
        seq!['h', 't', 't', 'p', 's', ':', '/', '/']
    };
    scheme + h + seq![':'] + decimal(port as nat)
}

fn push_all(out: &mut Vec<char>, cs: &[char])
    ensures
        final(out)@ == old(out)@ + cs@,
{
    let mut i: usize = 0;
    while i < cs.len()
        invariant
            i <= cs@.len(),
            out@ == old(out)@ + cs@.take(i as int),
        decreases cs@.len() - i,
    {
        out.push(cs[i]);
        i = i + 1;
        proof {
            assert(cs@.take(i as int) == cs@.take(i - 1).push(cs@[i - 1]));
        }
    }
    proof {
        assert(cs@.take(i as int) == cs@);
    }
}

fn digit(d: u16) -> (c: char)
    requires
        d < 10,
    ensures
        c == digit_char(d as nat),
{
    match d {
        0 => '0',
        1 => '1',
        2 => '2',
        3 => '3',
        4 => '4',
        5 => '5',
        6 => '6',
        7 => '7',
        8 => '8',
        _ => '9',
    }
}

fn push_decimal(out: &mut Vec<char>, n: u16)
    ensures
        final(out)@ == old(out)@ + decimal(n as nat),
    decreases n,
{
    if n >= 10 {
        push_decimal(out, n / 10);
    }
    out.push(digit(n % 10));
    proof {
        if n >= 10 {
            assert(decimal(n as nat) == decimal((n / 10) as nat).push(digit_char((n % 10) as nat)));
        }
    }
}

impl Server {
    /// A server of a built-in list.
    pub fn fixed(host: &str, port: u16) -> (r: Server)
        ensures
            r@ == (host@, port),
    {
        Server { host: host.to_owned(), port }
    }

    /// A server given by the user.
    pub fn custom(host: String, port: u16) -> (r: Server)
        ensures
            r@ == (host@, port),
    {
        Server { host, port }
    }

    pub fn host(&self) -> (r: &str)
        ensures
            r@ == self@.0,
    {
        self.host.as_str()
    }

    pub fn port(&self) -> (r: u16)
        ensures
            r == self@.1,
    {
        self.port
    }

    /// Whether the connection needs TLS: every host but a loopback one.
    pub fn use_tls(&self) -> (r: bool)
        ensures
            r == !is_loopback(self@.0),
    {
        let h = chars_of(self.host.as_str());
        let localhost = ['l', 'o', 'c', 'a', 'l', 'h', 'o', 's', 't'];
        let v4 = ['1', '2', '7', '.', '0', '.', '0', '.', '1'];
        let v6 = [':', ':', '1'];
        let r = chars_eq(&h, &localhost) || chars_eq(&h, &v4) || chars_eq(&h, &v6);
        proof {
            assert(localhost@ =~= seq!['l', 'o', 'c', 'a', 'l', 'h', 'o', 's', 't']);
            assert(v4@ =~= seq!['1', '2', '7', '.', '0', '.', '0', '.', '1']);
            assert(v6@ =~= seq![':', ':', '1']);
        }
        !r
    }

    /// The URL to connect to.
    pub fn endpoint(&self) -> (r: String)
        ensures
            r@ == endpoint_of(self@.0, self@.1),
    {
        let mut out: Vec<char> = Vec::new();
        if self.use_tls() {
            push_all(&mut out, &['h', 't', 't', 'p', 's', ':', '/', '/']);
        } else {
            push_all(&mut out, &['h', 't', 't', 'p', ':', '/', '/']);
        }
        let h = chars_of(self.host.as_str());
        push_all(&mut out, h.as_slice());
        out.push(':');
        push_decimal(&mut out, self.port);
        proof {
            let scheme = if is_loopback(self@.0) {
                seq!['h', 't', 't', 'p', ':', '/', '/']
            } else {
                seq!['h', 't', 't', 'p', 's', ':', '/', '/']
            };
            assert(out@ =~= scheme + self@.0 + seq![':'] + decimal(self@.1 as nat));
        }
        string_of(&out)
    }

    /// The server as `host:port`.
    pub fn address(&self) -> (r: String)
        ensures
            r@ == self@.0 + seq![':'] + decimal(self@.1 as nat),
    {
        let mut out = chars_of(self.host.as_str());
        out.push(':');
        push_decimal(&mut out, self.port);
        proof {
            assert(out@ =~= self@.0 + seq![':'] + decimal(self@.1 as nat));
        }
        string_of(&out)
    }
}

/// The servers each operator runs on each network, in order of preference.
pub open spec fn operator_hosts(op: ServerOperator, network: Network) -> Seq<(Seq<char>, u16)> {
    match (op, network) {
        (ServerOperator::Ecc, Network::MainNetwork) => seq![],
        (ServerOperator::Ecc, Network::TestNetwork) => seq![
            ("lightwalletd.testnet.electriccoin.co"@, 9067u16),
        ],
        (ServerOperator::YWallet, Network::MainNetwork) => seq![
            ("lwd1.zcash-infra.com"@, 9067u16),
            ("lwd2.zcash-infra.com"@, 9067u16),
            ("lwd3.zcash-infra.com"@, 9067u16),
            ("lwd4.zcash-infra.com"@, 9067u16),
            ("lwd5.zcash-infra.com"@, 9067u16),
            ("lwd6.zcash-infra.com"@, 9067u16),
            ("lwd7.zcash-infra.com"@, 9067u16),
            ("lwd8.zcash-infra.com"@, 9067u16),
        ],
        (ServerOperator::YWallet, Network::TestNetwork) => seq![],
        (ServerOperator::ZecRocks, Network::MainNetwork) => seq![
            ("zec.rocks"@, 443u16),
            ("ap.zec.rocks"@, 443u16),
            ("eu.zec.rocks"@, 443u16),
            ("na.zec.rocks"@, 443u16),
            ("sa.zec.rocks"@, 443u16),
        ],
        (ServerOperator::ZecRocks, Network::TestNetwork) => seq![("testnet.zec.rocks"@, 443u16)],
    }
}

impl ServerOperator {
    /// The servers the operator runs on `network`.
    pub fn servers(&self, network: Network) -> (r: Vec<Server>)
        ensures
            server_views(r@) == operator_hosts(*self, network),
    {
        let r = match (self, network) {
            (ServerOperator::Ecc, Network::MainNetwork) => Vec::new(),
            (ServerOperator::Ecc, Network::TestNetwork) => vec![
                Server::fixed("lightwalletd.testnet.electriccoin.co", 9067),
            ],
            (ServerOperator::YWallet, Network::MainNetwork) => vec![
                Server::fixed("lwd1.zcash-infra.com", 9067),
                Server::fixed("lwd2.zcash-infra.com", 9067),
                Server::fixed("lwd3.zcash-infra.com", 9067),
                Server::fixed("lwd4.zcash-infra.com", 9067),
                Server::fixed("lwd5.zcash-infra.com", 9067),
                Server::fixed("lwd6.zcash-infra.com", 9067),
                Server::fixed("lwd7.zcash-infra.com", 9067),
                Server::fixed("lwd8.zcash-infra.com", 9067),
            ],
            (ServerOperator::YWallet, Network::TestNetwork) => Vec::new(),
            (ServerOperator::ZecRocks, Network::MainNetwork) => vec![
                Server::fixed("zec.rocks", 443),
                Server::fixed("ap.zec.rocks", 443),
                Server::fixed("eu.zec.rocks", 443),
                Server::fixed("na.zec.rocks", 443),
                Server::fixed("sa.zec.rocks", 443),
            ],
            (ServerOperator::ZecRocks, Network::TestNetwork) => vec![
                Server::fixed("testnet.zec.rocks", 443),
            ],
        };
        proof {
            assert(server_views(r@) =~= operator_hosts(*self, network));
        }
        r
    }
}

/// Name by which the user picks an operator.
pub open spec fn operator_name(op: ServerOperator) -> Seq<char> {
    match op {
        ServerOperator::Ecc => seq!['e', 'c', 'c'],
        ServerOperator::YWallet => seq!['y', 'w', 'a', 'l', 'l', 'e', 't'],
        ServerOperator::ZecRocks => seq!['z', 'e', 'c', 'r', 'o', 'c', 'k', 's'],
    }
}

/// The operator that `s` names, if any.
pub open spec fn spec_named(s: Seq<char>) -> Option<ServerOperator> {
    if s == operator_name(ServerOperator::Ecc) {
        Some(ServerOperator::Ecc)
    } else if s == operator_name(ServerOperator::YWallet) {
        Some(ServerOperator::YWallet)
    } else if s == operator_name(ServerOperator::ZecRocks) {
        Some(ServerOperator::ZecRocks)
    } else {
        None
    }
}

/// A choice of servers: the hosted group of an operator, or a list given by
/// the user.
#[derive(Debug)]
pub enum Servers {
    Hosted(ServerOperator),
    Custom(Vec<Server>),
}

/// A server choice that is neither an operator's name nor a list of
/// `host:port`.
#[derive(Debug)]
pub struct ParseServersError {
    pub input: String,
}

/// The chosen operator runs no server on the network.
#[derive(Clone, Copy, Debug, PartialEq, Eq, Structural)]
pub struct NoServerError {
    pub operator: ServerOperator,
    pub network: Network,
}

fn prefix(cs: &Vec<char>, n: usize) -> (r: Vec<char>)
    requires
        n <= cs@.len(),
    ensures
        r@ == cs@.take(n as int),
{
    let mut r: Vec<char> = Vec::new();
    let mut i: usize = 0;
    while i < n
        invariant
            i <= n <= cs@.len(),
            r@ == cs@.take(i as int),
        decreases n - i,
    {
        r.push(cs[i]);
        i = i + 1;
        proof {
            assert(cs@.take(i as int) == cs@.take(i - 1).push(cs@[i - 1]));
        }
    }
    r
}

/// The server of a `host:port` piece.
fn host_port(piece: &Vec<char>) -> (r: Option<Server>)
    ensures
        match spec_host_port(piece@) {
            None => r is None,
            Some(hp) => r matches Some(sv) && sv@ == hp,
        },
{
    let li = last_index_of(piece, ':');
    let len = piece.len();
    proof {
        lemma_last_index_bounds(piece@, ':');
    }
    match li {
        None => None,
        Some(i) => {
            proof {
                // the colon lies inside the piece, so `i + 1` cannot overflow
                assert(i < len);
            }
            match parse_port(piece, i + 1) {
                None => None,
                Some(port) => {
                    let host = prefix(piece, i);
                    Some(Server::custom(string_of(&host), port))
                },
            }
        },
    }
}

impl Servers {
    pub open spec fn wf(&self) -> bool {
        match self {
            Servers::Hosted(_) => true,
            Servers::Custom(v) => v@.len() > 0,
        }
    }

    /// Reads a server choice: `ecc`, `ywallet` or `zecrocks` for an
    /// operator's servers, else a comma-separated list of `host:port`.
    pub fn parse(s: &str) -> (r: Result<Servers, ParseServersError>)
        ensures
            r matches Ok(sv) ==> sv.wf(),
            match spec_named(s@) {
                Some(op) => r matches Ok(sv) && sv == Servers::Hosted(op),
                None => match spec_custom(s@) {
                    Some(list) => r matches Ok(sv) && sv matches Servers::Custom(v) && server_views(
                        v@,
                    ) == list,
                    None => r matches Err(e) && e.input@ == s@,
                },
            },
    {
        let cs = chars_of(s);
        let ecc = ['e', 'c', 'c'];
        let ywallet = ['y', 'w', 'a', 'l', 'l', 'e', 't'];
        let zecrocks = ['z', 'e', 'c', 'r', 'o', 'c', 'k', 's'];
        proof {
            assert(ecc@ =~= operator_name(ServerOperator::Ecc));
            assert(ywallet@ =~= operator_name(ServerOperator::YWallet));
            assert(zecrocks@ =~= operator_name(ServerOperator::ZecRocks));
        }
        if chars_eq(&cs, &ecc) {
            return Ok(Servers::Hosted(ServerOperator::Ecc));
        }
        if chars_eq(&cs, &ywallet) {
            return Ok(Servers::Hosted(ServerOperator::YWallet));
        }
        if chars_eq(&cs, &zecrocks) {
            return Ok(Servers::Hosted(ServerOperator::ZecRocks));
        }
        let pieces = split_commas(&cs);
        let ghost ps = split_on(s@, ',');
        proof {
            lemma_split_nonempty(s@, ',');
            assert(char_views(pieces@) == ps);
        }
        let mut out: Vec<Server> = Vec::new();
        let mut k: usize = 0;
        while k < pieces.len()
            invariant
                char_views(pieces@) == ps,
                ps == split_on(s@, ','),
                spec_named(s@) is None,
                k <= ps.len(),
                forall|j: int| 0 <= j < k ==> (#[trigger] spec_host_port(ps[j])) is Some,
                server_views(out@) == Seq::new(k as nat, |j: int| spec_host_port(ps[j])->0),
            decreases ps.len() - k,
        {
            proof {
                assert(pieces@[k as int]@ == ps[k as int]);
            }
            match host_port(&pieces[k]) {
                None => {
                    proof {
                        assert(spec_host_port(ps[k as int]) is None);
                        assert(spec_custom(s@) is None);
                    }
                    return Err(ParseServersError { input: s.to_owned() });
                },
                Some(sv) => {
                    let ghost before = out@;
                    let ghost k0 = k as int;
                    proof {
                        assert(forall|j: int| 0 <= j < k0 ==> server_views(before)[j] == spec_host_port(ps[j])->0);
                        assert(spec_host_port(ps[k as int]) is Some);
                        assert(sv@ == spec_host_port(ps[k as int])->0);
                    }
                    out.push(sv);
                    k = k + 1;
                    proof {
                        assert(server_views(before).len() == k - 1);
                        assert(before.len() == k - 1);
                        assert(out@.len() == k);
                        assert(out@[k - 1] == sv);
                        assert(server_views(out@)[k - 1] == sv@);
                        assert forall|j: int| 0 <= j < k implies server_views(out@)[j]
                            == spec_host_port(ps[j])->0 by {
                            if j < k0 {
                                assert(out@[j] == before[j]);
                                assert(server_views(before)[j] == spec_host_port(ps[j])->0);
                            }
                        }
                        assert(server_views(out@) =~= Seq::new(k as nat, |j: int| spec_host_port(ps[j])->0));
                    }
                },
            }
        }
        Ok(Servers::Custom(out))
    }

    /// The server to use on `network`: the first of the chosen list.
    pub fn pick(&self, network: Network) -> (r: Result<Server, NoServerError>)
        requires
            self.wf(),
        ensures
            match self {
                Servers::Hosted(op) => {
                    let hosts = operator_hosts(*op, network);
                    &&& (r is Ok <==> hosts.len() > 0)
                    &&& r matches Ok(sv) ==> sv@ == hosts[0]
                    &&& r matches Err(e) ==> e == (NoServerError { operator: *op, network })
                },
                Servers::Custom(v) => r matches Ok(sv) && sv@ == v@[0]@,
            },
    {
        match self {
            Servers::Hosted(op) => {
                let mut list = op.servers(network);
                if list.len() > 0 {
                    let first = list.remove(0);
                    Ok(first)
                } else {
                    Err(NoServerError { operator: *op, network })
                }
            },
            Servers::Custom(v) => Ok(Server { host: v[0].host.clone(), port: v[0].port }),
        }
    }
}

} // verus!

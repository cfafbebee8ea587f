//! Command-line options of the price oracle: the ports of the peer-to-peer
//! network and the market symbols whose prices are streamed.
use vstd::prelude::*;
use crate::text::same_text;

verus! {

/// Default UDP port of discovery.
pub const DEFAULT_DISCOVERY_PORT: u16 = 30304;

/// Default TCP port of RLPx.
pub const DEFAULT_RLPX_PORT: u16 = 30303;

/// Default comma-separated list of market symbols whose prices are streamed.
pub const DEFAULT_BINANCE_SYMBOLS: &'static str = "btcusdt,ethusdt";

/// The pieces of `s` between occurrences of `sep`, in order; there is one piece
/// more than there are separators, and pieces may be empty.
pub open spec fn split_on(s: Seq<char>, sep: char) -> Seq<Seq<char>>
    decreases s.len(),
{
    if s.len() == 0 {
        seq![Seq::<char>::empty()]
    } else {
        let pieces = split_on(s.drop_last(), sep);
        if s.last() == sep {
            pieces.push(Seq::<char>::empty())
        } else {
            pieces.update(pieces.len() - 1, pieces.last().push(s.last()))
        }
    }
}

/// There is always at least one piece.
pub proof fn lemma_split_on_nonempty(s: Seq<char>, sep: char)
    ensures
        split_on(s, sep).len() >= 1,
    decreases s.len(),
{
    if s.len() > 0 {
        lemma_split_on_nonempty(s.drop_last(), sep);
    }
}

/// An ASCII decimal digit.
pub open spec fn is_digit(c: char) -> bool {
    '0' <= c <= '9'
}

/// The value of a string of decimal digits.
pub open spec fn digits_value(d: Seq<char>) -> nat
    decreases d.len(),
{
    if d.len() == 0 {
        0
    } else {
        digits_value(d.drop_last()) * 10 + (d.last() as int - '0' as int) as nat
    }
}

/// Whether every character is a decimal digit.
pub open spec fn all_digits(d: Seq<char>) -> bool {
    forall|k: int| 0 <= k < d.len() ==> is_digit(#[trigger] d[k])
}

/// Whether a port is written with a sign.
pub open spec fn has_sign(v: Seq<char>) -> bool {
    v.len() > 0 && (v[0] == '-' || v[0] == '+')
}

/// The digits of a port, after its sign.
pub open spec fn port_digits(v: Seq<char>) -> Seq<char> {
    if has_sign(v) {
        v.drop_first()
    } else {
        v
    }
}

/// A port as written on the command line: an optional `+` or `-`, then at least one
/// decimal digit, read as a signed 64-bit number that must lie in `0..=65535`.
pub open spec fn port_value(v: Seq<char>) -> Option<u16> {
    let digits = port_digits(v);
    let in_range = if v.len() > 0 && v[0] == '-' {
        digits_value(digits) == 0
    } else {
        digits_value(digits) <= 65535
    };
    if digits.len() > 0 && all_digits(digits) && in_range {
        Some(digits_value(digits) as u16)
    } else {
        None
    }
}

/// The first position at or after `i` where `s` holds `c`.
pub open spec fn find_from(s: Seq<char>, c: char, i: int) -> Option<int>
    decreases s.len() - i,
{
    if i < 0 || i >= s.len() {
        None
    } else if s[i] == c {
        Some(i)
    } else {
        find_from(s, c, i + 1)
    }
}

/// A long option: it begins with `--`.
pub open spec fn is_long(a: Seq<char>) -> bool {
    a.len() >= 2 && a[0] == '-' && a[1] == '-'
}

/// The name of a long option: what follows `--`, up to the first `=`.
pub open spec fn long_name(a: Seq<char>) -> Seq<char> {
    match find_from(a, '=', 2) {
        Some(k) => a.subrange(2, k),
        None => a.subrange(2, a.len() as int),
    }
}

/// The value written into a long option after its first `=`, if it has one.
pub open spec fn inline_value(a: Seq<char>) -> Option<Seq<char>> {
    match find_from(a, '=', 2) {
        Some(k) => Some(a.subrange(k + 1, a.len() as int)),
        None => None,
    }
}

/// An argument that reads as an option, which cannot be taken as the value of the
/// option before it.
pub open spec fn looks_like_option(a: Seq<char>) -> bool {
    a.len() >= 2 && a[0] == '-'
}

/// The options of the oracle.
#[derive(Clone, Copy, Debug, PartialEq, Eq, Structural)]
pub enum OracleOption {
    /// `--disc.tcp-port`
    TcpPort,
    /// `--disc.udp-port`
    UdpPort,
    /// `--data.symbols`
    Symbols,
}

/// The option that a long name stands for.
pub open spec fn option_of(name: Seq<char>) -> Option<OracleOption> {
    if name == "disc.tcp-port"@ {
        Some(OracleOption::TcpPort)
    } else if name == "disc.udp-port"@ {
        Some(OracleOption::UdpPort)
    } else if name == "data.symbols"@ {
        Some(OracleOption::Symbols)
    } else {
        None
    }
}

/// What was parsed, as plain values.
pub struct OracleExtView {
    pub tcp_port: u16,
    pub udp_port: u16,
    pub binance_symbols: Seq<Seq<char>>,
}

/// Why a command line was refused.
pub enum ArgErrorView {
    /// An argument that is no option of the oracle.
    UnknownArgument(Seq<char>),
    /// An option, by name, with no value after it.
    MissingValue(Seq<char>),
    /// A value that is no port.
    InvalidPort(Seq<char>),
    /// A port option, by name, given a second time.
    Repeated(Seq<char>),
}

/// The options with their defaults filled in.
pub open spec fn finish(
    tcp: Option<u16>,
    udp: Option<u16>,
    symbols: Option<Seq<Seq<char>>>,
) -> OracleExtView {
    OracleExtView {
        tcp_port: match tcp {
            Some(p) => p,
            None => DEFAULT_RLPX_PORT,
        },
        udp_port: match udp {
            Some(p) => p,
            None => DEFAULT_DISCOVERY_PORT,
        },
        binance_symbols: match symbols {
            Some(s) => s,
            None => split_on(DEFAULT_BINANCE_SYMBOLS@, ','),
        },
    }
}

/// Parses the arguments from position `i` on, with what was read before it.
/// Options are long, written `--name value` or `--name=value`; a port may be given
/// once, symbols any number of times, each value split at commas and the pieces
/// appended.
pub open spec fn parse_rest(
    args: Seq<Seq<char>>,
    i: int,
    tcp: Option<u16>,
    udp: Option<u16>,
    symbols: Option<Seq<Seq<char>>>,
) -> Result<OracleExtView, ArgErrorView>
    decreases args.len() - i,
{
    if i < 0 || i >= args.len() {
        Ok(finish(tcp, udp, symbols))
    } else {
        let a = args[i];
        let name = long_name(a);
        if !is_long(a) || option_of(name) is None {
            Err(ArgErrorView::UnknownArgument(a))
        } else {
            let (value, next) = if inline_value(a) is Some {
                (inline_value(a), i + 1)
            } else if i + 1 < args.len() && !looks_like_option(args[i + 1]) {
                (Some(args[i + 1]), i + 2)
            } else {
                (None::<Seq<char>>, i + 1)
            };
            match value {
                None => Err(ArgErrorView::MissingValue(name)),
                Some(v) => match option_of(name).unwrap() {
                    OracleOption::TcpPort => if tcp is Some {
                        Err(ArgErrorView::Repeated(name))
                    } else {
                        match port_value(v) {
                            None => Err(ArgErrorView::InvalidPort(v)),
                            Some(p) => parse_rest(args, next, Some(p), udp, symbols),
                        }
                    },
                    OracleOption::UdpPort => if udp is Some {
                        Err(ArgErrorView::Repeated(name))
                    } else {
                        match port_value(v) {
                            None => Err(ArgErrorView::InvalidPort(v)),
                            Some(p) => parse_rest(args, next, tcp, Some(p), symbols),
                        }
                    },
                    OracleOption::Symbols => {
                        let before = match symbols {
                            Some(s) => s,
                            None => Seq::<Seq<char>>::empty(),
                        };
                        parse_rest(args, next, tcp, udp, Some(before + split_on(v, ',')))
                    },
                },
            }
        }
    }
}

/// Parses a command line whose first argument is the program's name.
pub open spec fn parse_args(args: Seq<Seq<char>>) -> Result<OracleExtView, ArgErrorView> {
    parse_rest(args, 1, None, None, None)
}

/// The texts of the arguments.
pub open spec fn arg_texts(args: Seq<&str>) -> Seq<Seq<char>> {
    Seq::new(args.len(), |k: int| args[k]@)
}

/// The texts of a list of strings.
pub open spec fn texts(v: Seq<String>) -> Seq<Seq<char>> {
    Seq::new(v.len(), |k: int| v[k]@)
}


/// The first position at or after `from` where `s` holds `c`.
fn find_char(s: &str, c: char, from: usize) -> (r: Option<usize>)
    ensures
        r matches Some(k) ==> from <= k < s@.len() && find_from(s@, c, from as int) == Some(
            k as int,
        ),
        r is None ==> find_from(s@, c, from as int) is None,
{
    let n = s.unicode_len();
    let mut k: usize = from;
    while k < n
        invariant
            n == s@.len(),
            from <= k,
            find_from(s@, c, from as int) == find_from(s@, c, k as int),
        decreases n - k,
    {
        if s.get_char(k) == c {
            return Some(k);
        }
        k = k + 1;
    }
    None
}

/// Splits a long option into its name and the value written after `=`, if any.
fn split_long(a: &str) -> (r: (&str, Option<&str>))
    requires
        is_long(a@),
    ensures
        r.0@ == long_name(a@),
        r.1 is Some <==> inline_value(a@) is Some,
        r.1 matches Some(v) ==> inline_value(a@) == Some(v@),
{
    let n = a.unicode_len();
    match find_char(a, '=', 2) {
        Some(k) => (a.substring_char(2, k), Some(a.substring_char(k + 1, n))),
        None => (a.substring_char(2, n), None),
    }
}

/// Whether an argument begins with `--`.
fn is_long_option(a: &str) -> (r: bool)
    ensures
        r == is_long(a@),
{
    let n = a.unicode_len();
    n >= 2 && a.get_char(0) == '-' && a.get_char(1) == '-'
}

/// Whether an argument reads as an option.
fn reads_as_option(a: &str) -> (r: bool)
    ensures
        r == looks_like_option(a@),
{
    let n = a.unicode_len();
    n >= 2 && a.get_char(0) == '-'
}

/// The option that a long name stands for.
fn option_named(name: &str) -> (r: Option<OracleOption>)
    ensures
        r == option_of(name@),
{
    if same_text(name, "disc.tcp-port") {
        Some(OracleOption::TcpPort)
    } else if same_text(name, "disc.udp-port") {
        Some(OracleOption::UdpPort)
    } else if same_text(name, "data.symbols") {
        Some(OracleOption::Symbols)
    } else {
        None
    }
}

/// Reads a port.
pub fn parse_port(v: &str) -> (r: Option<u16>)
    ensures
        r == port_value(v@),
{
    let n = v.unicode_len();
    let signed = n > 0 && (v.get_char(0) == '-' || v.get_char(0) == '+');
    let negative = n > 0 && v.get_char(0) == '-';
    let start: usize = if signed {
        1
    } else {
        0
    };
    let ghost digits = port_digits(v@);
    assert(digits =~= v@.subrange(start as int, n as int));
    if start >= n {
        return None;
    }
    let mut value: u32 = 0;
    let mut k: usize = start;
    while k < n
        invariant
            n == v@.len(),
            start <= k <= n,
            digits =~= v@.subrange(start as int, n as int),
            digits == port_digits(v@),
            forall|j: int| start <= j < k ==> is_digit(#[trigger] v@[j]),
            value <= 65535 ==> value == digits_value(v@.subrange(start as int, k as int)),
            value > 65535 ==> value == 65536 && digits_value(v@.subrange(start as int, k as int))
                > 65535,
        decreases n - k,
    {
        let c = v.get_char(k);
        if !('0' <= c && c <= '9') {
            assert(digits[k - start] == v@[k as int]);
            assert(!is_digit(digits[k - start]));
            assert(!all_digits(digits));
            return None;
        }
        let d: u32 = (c as u32) - ('0' as u32);
        assert(v@.subrange(start as int, k + 1).drop_last() =~= v@.subrange(start as int, k as int));
        if value <= 65535 {
            value = value * 10 + d;
            if value > 65535 {
                value = 65536;
            }
        }
        k = k + 1;
    }
    assert(v@.subrange(start as int, n as int) =~= digits);
    assert(all_digits(digits)) by {
        assert forall|j: int| 0 <= j < digits.len() implies is_digit(#[trigger] digits[j]) by {
            assert(digits[j] == v@[j + start]);
        }
    }
    if negative {
        if value == 0 {
            Some(0)
        } else {
            None
        }
    } else if value <= 65535 {
        Some(value as u16)
    } else {
        None
    }
}

/// The pieces of `s` between commas.
pub fn split_commas(s: &str) -> (r: Vec<String>)
    ensures
        texts(r@) == split_on(s@, ','),
{
    let n = s.unicode_len();
    let mut pieces: Vec<String> = Vec::new();
    let mut start: usize = 0;
    let mut k: usize = 0;
    assert(texts(pieces@) =~= Seq::<Seq<char>>::empty());
    assert(s@.subrange(0, 0) =~= Seq::<char>::empty());
    while k < n
        invariant
            n == s@.len(),
            start <= k <= n,
            texts(pieces@).push(s@.subrange(start as int, k as int)) == split_on(
                s@.subrange(0, k as int),
                ',',
            ),
        decreases n - k,
    {
        let ghost before = texts(pieces@);
        assert(s@.subrange(0, k + 1).drop_last() =~= s@.subrange(0, k as int));
        if s.get_char(k) == ',' {
            pieces.push(String::from_str(s.substring_char(start, k)));
            assert(texts(pieces@) =~= before.push(s@.subrange(start as int, k as int)));
            start = k + 1;
            assert(s@.subrange(start as int, k + 1) =~= Seq::<char>::empty());
        } else {
            assert(s@.subrange(start as int, k + 1) =~= s@.subrange(start as int, k as int).push(
                s@[k as int],
            ));
        }
        k = k + 1;
    }
    let last = String::from_str(s.substring_char(start, n));
    let ghost before = texts(pieces@);
    pieces.push(last);
    assert(texts(pieces@) =~= before.push(s@.subrange(start as int, n as int)));
    assert(s@.subrange(0, n as int) =~= s@);
    pieces
}


/// Options of the oracle.
#[derive(Debug, Clone)]
pub struct OracleExt {
    /// TCP port used by RLPx
    pub tcp_port: u16,
    /// UDP port used for discovery
    pub udp_port: u16,
    /// The list of symbols to configure the stream of prices from binance.
    pub binance_symbols: Vec<String>,
}

impl View for OracleExt {
    type V = OracleExtView;

    open spec fn view(&self) -> OracleExtView {
        OracleExtView {
            tcp_port: self.tcp_port,
            udp_port: self.udp_port,
            binance_symbols: texts(self.binance_symbols@),
        }
    }
}

/// Why a command line was refused.
#[derive(Debug, Clone, PartialEq, Eq)]
pub enum ArgError {
    /// An argument that is no option of the oracle.
    UnknownArgument(String),
    /// An option, by name, with no value after it.
    MissingValue(String),
    /// A value that is no port.
    InvalidPort(String),
    /// A port option, by name, given a second time.
    Repeated(String),
}

impl View for ArgError {
    type V = ArgErrorView;

    open spec fn view(&self) -> ArgErrorView {
        match self {
            ArgError::UnknownArgument(a) => ArgErrorView::UnknownArgument(a@),
            ArgError::MissingValue(a) => ArgErrorView::MissingValue(a@),
            ArgError::InvalidPort(a) => ArgErrorView::InvalidPort(a@),
            ArgError::Repeated(a) => ArgErrorView::Repeated(a@),
        }
    }
}

/// A parse's outcome as plain values.
pub open spec fn outcome(r: Result<OracleExt, ArgError>) -> Result<OracleExtView, ArgErrorView> {
    match r {
        Ok(o) => Ok(o@),
        Err(e) => Err(e@),
    }
}

/// The texts of the symbols read so far, if any were.
pub open spec fn symbols_texts(s: Option<Vec<String>>) -> Option<Seq<Seq<char>>> {
    match s {
        Some(v) => Some(texts(v@)),
        None => None,
    }
}

/// The texts of two lists, one after the other.
proof fn lemma_texts_append(a: Seq<String>, b: Seq<String>)
    ensures
        texts(a + b) == texts(a) + texts(b),
{
    assert(texts(a + b) =~= texts(a) + texts(b));
}

impl OracleExt {
    /// Parses a command line whose first argument is the program's name: long
    /// options `--disc.tcp-port`, `--disc.udp-port` and `--data.symbols`, each
    /// followed by its value or joined to it by `=`; what is not given takes its
    /// default.
    pub fn parse_from(args: &[&str]) -> (r: Result<OracleExt, ArgError>)
        ensures
            outcome(r) == parse_args(arg_texts(args@)),
    {
        let n = args.len();
        let ghost all = arg_texts(args@);
        let mut i: usize = 1;
        let mut tcp: Option<u16> = None;
        let mut udp: Option<u16> = None;
        let mut symbols: Option<Vec<String>> = None;
        while i < n
            invariant
                n == args@.len(),
                all == arg_texts(args@),
                1 <= i,
                parse_rest(all, i as int, tcp, udp, symbols_texts(symbols)) == parse_args(all),
            decreases n - i,
        {
            let a: &str = args[i];
            assert(all[i as int] == a@);
            if !is_long_option(a) {
                return Err(ArgError::UnknownArgument(String::from_str(a)));
            }
            let (name, inline) = split_long(a);
            let opt = match option_named(name) {
                Some(o) => o,
                None => {
                    return Err(ArgError::UnknownArgument(String::from_str(a)));
                },
            };
            let (value, next): (&str, usize) = match inline {
                Some(v) => (v, i + 1),
                None => {
                    if i + 1 < n && !reads_as_option(args[i + 1]) {
                        assert(all[i + 1] == args@[i + 1]@);
                        (args[i + 1], i + 2)
                    } else {
                        return Err(ArgError::MissingValue(String::from_str(name)));
                    }
                },
            };
            match opt {
                OracleOption::TcpPort => {
                    if tcp.is_some() {
                        return Err(ArgError::Repeated(String::from_str(name)));
                    }
                    match parse_port(value) {
                        Some(p) => {
                            tcp = Some(p);
                        },
                        None => {
                            return Err(ArgError::InvalidPort(String::from_str(value)));
                        },
                    }
                },
                OracleOption::UdpPort => {
                    if udp.is_some() {
                        return Err(ArgError::Repeated(String::from_str(name)));
                    }
                    match parse_port(value) {
                        Some(p) => {
                            udp = Some(p);
                        },
                        None => {
                            return Err(ArgError::InvalidPort(String::from_str(value)));
                        },
                    }
                },
                OracleOption::Symbols => {
                    let mut pieces = split_commas(value);
                    let mut gathered = match symbols {
                        Some(s) => s,
                        None => Vec::new(),
                    };
                    let ghost before = gathered@;
                    let ghost added = pieces@;
                    gathered.append(&mut pieces);
                    proof {
                        lemma_texts_append(before, added);
                    }
                    symbols = Some(gathered);
                },
            }
            i = next;
        }
        let tcp_port = match tcp {
            Some(p) => p,
            None => DEFAULT_RLPX_PORT,
        };
        let udp_port = match udp {
            Some(p) => p,
            None => DEFAULT_DISCOVERY_PORT,
        };
        let binance_symbols = match symbols {
            Some(s) => s,
            None => split_commas(DEFAULT_BINANCE_SYMBOLS),
        };
        Ok(OracleExt { tcp_port, udp_port, binance_symbols })
    }
}

} // verus!

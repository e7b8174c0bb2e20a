//! Network addresses: IPv4 and IPv6 networks with an optional prefix
//! length, and MAC addresses, each with its textual wire form.

use vstd::prelude::*;
use vstd::string::StringExecFns;

use crate::error::ValidationError;
use crate::text::all_dec;
use crate::text::all_hex;
use crate::text::dec_u8_of;
use crate::text::hex2_of;
use crate::text::hex2_upper;
use crate::text::hex_u16_of;
use crate::text::is_dec;
use crate::text::is_hex;
use crate::text::lemma_hex2_upper_parse;
use crate::text::lemma_split_join6;
use crate::text::lemma_split_join8;
use crate::text::lemma_split_len1;
use crate::text::lemma_split_no_sep;
use crate::text::lemma_split_prepend;
use crate::text::lemma_u16_hex_parse;
use crate::text::lemma_u8_dec_parse;
use crate::text::parse_hex2;
use crate::text::parse_u16_hex;
use crate::text::parse_u8_dec;
use crate::text::push_hex2_upper;
use crate::text::push_u16_hex;
use crate::text::push_u8_dec;
use crate::text::split_char;
use crate::text::split_on;
use crate::text::u16_hex;
use crate::text::u8_dec;

verus! {

/// Decimal digits are never separators.
proof fn lemma_dec_not_sep(s: Seq<char>)
    requires
        all_dec(s),
    ensures
        forall|j: int| 0 <= j < s.len() ==> s[j] != '.',
        forall|j: int| 0 <= j < s.len() ==> s[j] != '/',
        forall|j: int| 0 <= j < s.len() ==> s[j] != ':',
{
    assert forall|j: int| 0 <= j < s.len() implies s[j] != '.' && s[j] != '/' && s[j] != ':' by {
        assert(is_dec(s[j]));
    }
}

/// Hexadecimal digits are never separators.
proof fn lemma_hex_not_sep(s: Seq<char>)
    requires
        all_hex(s),
    ensures
        forall|j: int| 0 <= j < s.len() ==> s[j] != ':',
        forall|j: int| 0 <= j < s.len() ==> s[j] != '-',
        forall|j: int| 0 <= j < s.len() ==> s[j] != '/',
    {
    assert forall|j: int| 0 <= j < s.len() implies s[j] != ':' && s[j] != '-' && s[j] != '/' by {
        assert(is_hex(s[j]));
    }
}

// ---------------------------------------------------------------------------
// IPv4
// ---------------------------------------------------------------------------

/// An IPv4 address or network in CIDR notation.
#[derive(Debug, Clone, Copy, PartialEq, Eq, Hash, PartialOrd, Ord)]
pub struct Ipv4Net {
    pub o0: u8,
    pub o1: u8,
    pub o2: u8,
    pub o3: u8,
    /// The prefix length; `None` stands for a single address, so this is
    /// never 32.
    pub prefix_len: Option<u8>,
}

/// The prefix length, when present, is below 32.
pub open spec fn ipv4net_wf(n: Ipv4Net) -> bool {
    match n.prefix_len {
        Some(p) => p < 32,
        None => true,
    }
}

/// The dotted-quad text of an IPv4 network, with `/prefix` when present.
pub open spec fn ipv4_text(n: Ipv4Net) -> Seq<char> {
    let addr = u8_dec(n.o0 as int) + seq!['.'] + u8_dec(n.o1 as int) + seq!['.']
        + u8_dec(n.o2 as int) + seq!['.'] + u8_dec(n.o3 as int);
    match n.prefix_len {
        Some(p) => addr + seq!['/'] + u8_dec(p as int),
        None => addr,
    }
}

/// The four octets a dotted-quad string names, if it is well-formed.
pub open spec fn parse_ipv4_addr(s: Seq<char>) -> Option<(int, int, int, int)> {
    let parts = split_on(s, '.');
    if parts.len() == 4 {
        match (
            parse_u8_dec(parts[0]),
            parse_u8_dec(parts[1]),
            parse_u8_dec(parts[2]),
            parse_u8_dec(parts[3]),
        ) {
            (Some(a), Some(b), Some(c), Some(d)) => Some((a, b, c, d)),
            _ => None,
        }
    } else {
        None
    }
}

/// The network a CIDR string names: an address, optionally followed by a
/// slash and a prefix length of at most 32.  A prefix of exactly 32 is
/// recorded as no prefix at all.
pub open spec fn parse_ipv4net(s: Seq<char>) -> Option<Ipv4Net> {
    let parts = split_on(s, '/');
    if parts.len() == 1 {
        match parse_ipv4_addr(s) {
            Some((a, b, c, d)) => Some(
                Ipv4Net { o0: a as u8, o1: b as u8, o2: c as u8, o3: d as u8, prefix_len: None },
            ),
            None => None,
        }
    } else if parts.len() == 2 {
        match (parse_ipv4_addr(parts[0]), parse_u8_dec(parts[1])) {
            (Some((a, b, c, d)), Some(p)) => if p > 32 {
                None
            } else {
                Some(
                    Ipv4Net {
                        o0: a as u8,
                        o1: b as u8,
                        o2: c as u8,
                        o3: d as u8,
                        prefix_len: if p == 32 { None } else { Some(p as u8) },
                    },
                )
            },
            _ => None,
        }
    } else {
        None
    }
}

impl Ipv4Net {
    /// A network from its octets and an optional prefix length; a prefix
    /// over 32 is rejected, and exactly 32 means a single address.
    pub fn new(o0: u8, o1: u8, o2: u8, o3: u8, prefix_len: Option<u8>) -> (r: Result<
        Self,
        ValidationError,
    >)
        ensures
            match r {
                Ok(n) => (match prefix_len {
                    Some(p) => p <= 32,
                    None => true,
                }) && n.o0 == o0 && n.o1 == o1 && n.o2 == o2 && n.o3 == o3
                    && n.prefix_len == (match prefix_len {
                    Some(p) => if p == 32 { None } else { Some(p) },
                    None => None::<u8>,
                }) && ipv4net_wf(n),
                Err(_) => prefix_len matches Some(p) && p > 32,
            },
    {
        match prefix_len {
            Some(p) => {
                if p > 32 {
                    Err(ValidationError::new("Prefix length must be between 0 and 32"))
                } else if p == 32 {
                    Ok(Ipv4Net { o0, o1, o2, o3, prefix_len: None })
                } else {
                    Ok(Ipv4Net { o0, o1, o2, o3, prefix_len: Some(p) })
                }
            }
            None => Ok(Ipv4Net { o0, o1, o2, o3, prefix_len: None }),
        }
    }

    /// Renders the network in CIDR notation.
    pub fn to_text(&self) -> (r: String)
        ensures
            r@ == ipv4_text(*self),
    {
        let mut out = String::new();
        push_u8_dec(&mut out, self.o0);
        out.append(".");
        push_u8_dec(&mut out, self.o1);
        out.append(".");
        push_u8_dec(&mut out, self.o2);
        out.append(".");
        push_u8_dec(&mut out, self.o3);
        proof {
            reveal_strlit(".");
            assert((".")@ =~= seq!['.']);
        }
        match self.prefix_len {
            Some(p) => {
                out.append("/");
                push_u8_dec(&mut out, p);
                proof {
                    reveal_strlit("/");
                    assert(("/")@ =~= seq!['/']);
                    assert(out@ =~= ipv4_text(*self));
                }
            }
            None => {
                proof {
                    assert(out@ =~= ipv4_text(*self));
                }
            }
        }
        out
    }

    /// Parses CIDR notation; see [`parse_ipv4net`] for the accepted shape.
    pub fn from_str(s: &str) -> (r: Result<Self, ValidationError>)
        ensures
            match r {
                Ok(n) => parse_ipv4net(s@) == Some(n),
                Err(_) => parse_ipv4net(s@).is_none(),
            },
    {
        let slash_parts = split_char(s, '/');
        if slash_parts.len() > 2 {
            return Err(ValidationError::new("Invalid IPv4 network"));
        }
        proof {
            assert(slash_parts.deep_view()[0] == slash_parts@[0]@);
            if slash_parts.deep_view().len() == 1 {
                lemma_split_len1(s@, '/');
            }
        }
        let addr = match Self::parse_addr(slash_parts[0]) {
            Some(v) => v,
            None => {
                return Err(ValidationError::new("Invalid IPv4 address"));
            }
        };
        if slash_parts.len() == 2 {
            proof {
                assert(slash_parts.deep_view()[1] == slash_parts@[1]@);
            }
            let p = match dec_u8_of(slash_parts[1]) {
                Some(p) => p,
                None => {
                    return Err(ValidationError::new("Invalid prefix length"));
                }
            };
            if p > 32 {
                return Err(ValidationError::new("Prefix length must be between 0 and 32"));
            }
            if p == 32 {
                Ok(Ipv4Net { o0: addr.0, o1: addr.1, o2: addr.2, o3: addr.3, prefix_len: None })
            } else {
                Ok(
                    Ipv4Net {
                        o0: addr.0,
                        o1: addr.1,
                        o2: addr.2,
                        o3: addr.3,
                        prefix_len: Some(p),
                    },
                )
            }
        } else {
            Ok(Ipv4Net { o0: addr.0, o1: addr.1, o2: addr.2, o3: addr.3, prefix_len: None })
        }
    }

    /// Parses a dotted quad.
    fn parse_addr(s: &str) -> (r: Option<(u8, u8, u8, u8)>)
        ensures
            match r {
                Some((a, b, c, d)) => parse_ipv4_addr(s@)
                    == Some((a as int, b as int, c as int, d as int)),
                None => parse_ipv4_addr(s@).is_none(),
            },
    {
        let parts = split_char(s, '.');
        if parts.len() != 4 {
            return None;
        }
        proof {
            assert(parts.deep_view()[0] == parts@[0]@);
            assert(parts.deep_view()[1] == parts@[1]@);
            assert(parts.deep_view()[2] == parts@[2]@);
            assert(parts.deep_view()[3] == parts@[3]@);
        }
        let a = match dec_u8_of(parts[0]) {
            Some(v) => v,
            None => {
                return None;
            }
        };
        let b = match dec_u8_of(parts[1]) {
            Some(v) => v,
            None => {
                return None;
            }
        };
        let c = match dec_u8_of(parts[2]) {
            Some(v) => v,
            None => {
                return None;
            }
        };
        let d = match dec_u8_of(parts[3]) {
            Some(v) => v,
            None => {
                return None;
            }
        };
        Some((a, b, c, d))
    }
}

/// Rendering an IPv4 network and parsing the text gives the network back.
#[verifier::rlimit(100)]
pub proof fn lemma_ipv4_round_trip(n: Ipv4Net)
    requires
        ipv4net_wf(n),
    ensures
        parse_ipv4net(ipv4_text(n)) == Some(n),
{
    let d0 = u8_dec(n.o0 as int);
    let d1 = u8_dec(n.o1 as int);
    let d2 = u8_dec(n.o2 as int);
    let d3 = u8_dec(n.o3 as int);
    lemma_u8_dec_parse(n.o0 as int);
    lemma_u8_dec_parse(n.o1 as int);
    lemma_u8_dec_parse(n.o2 as int);
    lemma_u8_dec_parse(n.o3 as int);
    lemma_dec_not_sep(d0);
    lemma_dec_not_sep(d1);
    lemma_dec_not_sep(d2);
    lemma_dec_not_sep(d3);
    let addr = d0 + seq!['.'] + d1 + seq!['.'] + d2 + seq!['.'] + d3;

    // The dotted quad splits into its four digit groups.
    let tail2 = d2 + seq!['.'] + d3;
    let tail1 = d1 + seq!['.'] + tail2;
    assert(addr =~= d0 + seq!['.'] + tail1);
    lemma_split_prepend(d0, '.', tail1);
    lemma_split_prepend(d1, '.', tail2);
    lemma_split_prepend(d2, '.', d3);
    lemma_split_no_sep(d3, '.');
    assert(split_on(addr, '.') =~= seq![d0, d1, d2, d3]);
    assert(parse_ipv4_addr(addr)
        == Some((n.o0 as int, n.o1 as int, n.o2 as int, n.o3 as int)));

    match n.prefix_len {
        Some(p) => {
            let dp = u8_dec(p as int);
            lemma_u8_dec_parse(p as int);
            lemma_dec_not_sep(dp);
            assert(forall|j: int| 0 <= j < addr.len() ==> addr[j] != '/');
            lemma_split_prepend(addr, '/', dp);
            lemma_split_no_sep(dp, '/');
            assert(ipv4_text(n) == addr + seq!['/'] + dp);
            assert(split_on(ipv4_text(n), '/') =~= seq![addr, dp]);
        }
        None => {
            assert(forall|j: int| 0 <= j < addr.len() ==> addr[j] != '/');
            lemma_split_no_sep(addr, '/');
            assert(split_on(ipv4_text(n), '/') =~= seq![addr]);
        }
    }
}

// ---------------------------------------------------------------------------
// IPv6
// ---------------------------------------------------------------------------

/// An IPv6 address or network in CIDR notation.  The textual form is the
/// full eight-group rendering, without zero compression.
#[derive(Debug, Clone, Copy, PartialEq, Eq, Hash, PartialOrd, Ord)]
pub struct Ipv6Net {
    pub g0: u16,
    pub g1: u16,
    pub g2: u16,
    pub g3: u16,
    pub g4: u16,
    pub g5: u16,
    pub g6: u16,
    pub g7: u16,
    /// The prefix length; `None` stands for a single address, so this is
    /// never 128.
    pub prefix_len: Option<u8>,
}

/// The prefix length, when present, is below 128.
pub open spec fn ipv6net_wf(n: Ipv6Net) -> bool {
    match n.prefix_len {
        Some(p) => p < 128,
        None => true,
    }
}

/// The text of the eight groups, lowercase hexadecimal, joined by colons.
pub open spec fn ipv6_addr_text(n: Ipv6Net) -> Seq<char> {
    u16_hex(n.g0 as int) + seq![':'] + u16_hex(n.g1 as int) + seq![':'] + u16_hex(n.g2 as int)
        + seq![':'] + u16_hex(n.g3 as int) + seq![':'] + u16_hex(n.g4 as int) + seq![':']
        + u16_hex(n.g5 as int) + seq![':'] + u16_hex(n.g6 as int) + seq![':']
        + u16_hex(n.g7 as int)
}

/// The text of an IPv6 network, with `/prefix` when present.
pub open spec fn ipv6_text(n: Ipv6Net) -> Seq<char> {
    match n.prefix_len {
        Some(p) => ipv6_addr_text(n) + seq!['/'] + u8_dec(p as int),
        None => ipv6_addr_text(n),
    }
}

/// The groups an eight-group string names, if it is well-formed.
pub open spec fn parse_ipv6_addr(s: Seq<char>) -> Option<
    (int, int, int, int, int, int, int, int),
> {
    let parts = split_on(s, ':');
    if parts.len() == 8 {
        match (
            parse_u16_hex(parts[0]),
            parse_u16_hex(parts[1]),
            parse_u16_hex(parts[2]),
            parse_u16_hex(parts[3]),
            parse_u16_hex(parts[4]),
            parse_u16_hex(parts[5]),
            parse_u16_hex(parts[6]),
            parse_u16_hex(parts[7]),
        ) {
            (
                Some(g0),
                Some(g1),
                Some(g2),
                Some(g3),
                Some(g4),
                Some(g5),
                Some(g6),
                Some(g7),
            ) => Some((g0, g1, g2, g3, g4, g5, g6, g7)),
            _ => None,
        }
    } else {
        None
    }
}

/// The network built from parsed groups and an optional prefix.
pub open spec fn ipv6_of(
    g: (int, int, int, int, int, int, int, int),
    prefix_len: Option<u8>,
) -> Ipv6Net {
    Ipv6Net {
        g0: g.0 as u16,
        g1: g.1 as u16,
        g2: g.2 as u16,
        g3: g.3 as u16,
        g4: g.4 as u16,
        g5: g.5 as u16,
        g6: g.6 as u16,
        g7: g.7 as u16,
        prefix_len,
    }
}

/// The network a CIDR string names; a prefix of exactly 128 is recorded as
/// no prefix at all.
pub open spec fn parse_ipv6net(s: Seq<char>) -> Option<Ipv6Net> {
    let parts = split_on(s, '/');
    if parts.len() == 1 {
        match parse_ipv6_addr(s) {
            Some(g) => Some(ipv6_of(g, None)),
            None => None,
        }
    } else if parts.len() == 2 {
        match (parse_ipv6_addr(parts[0]), parse_u8_dec(parts[1])) {
            (Some(g), Some(p)) => if p > 128 {
                None
            } else {
                Some(ipv6_of(g, if p == 128 { None } else { Some(p as u8) }))
            },
            _ => None,
        }
    } else {
        None
    }
}

impl Ipv6Net {
    /// A network from its groups and an optional prefix length; a prefix
    /// over 128 is rejected, and exactly 128 means a single address.
    pub fn new(groups: (u16, u16, u16, u16, u16, u16, u16, u16), prefix_len: Option<u8>) -> (r:
        Result<Self, ValidationError>)
        ensures
            match r {
                Ok(n) => (match prefix_len {
                    Some(p) => p <= 128,
                    None => true,
                }) && n == (Ipv6Net {
                    g0: groups.0,
                    g1: groups.1,
                    g2: groups.2,
                    g3: groups.3,
                    g4: groups.4,
                    g5: groups.5,
                    g6: groups.6,
                    g7: groups.7,
                    prefix_len: match prefix_len {
                        Some(p) => if p == 128 { None } else { Some(p) },
                        None => None::<u8>,
                    },
                }) && ipv6net_wf(n),
                Err(_) => prefix_len matches Some(p) && p > 128,
            },
    {
        let pl = match prefix_len {
            Some(p) => {
                if p > 128 {
                    return Err(ValidationError::new("Prefix length must be between 0 and 128"));
                }
                if p == 128 {
                    None
                } else {
                    Some(p)
                }
            }
            None => None,
        };
        Ok(
            Ipv6Net {
                g0: groups.0,
                g1: groups.1,
                g2: groups.2,
                g3: groups.3,
                g4: groups.4,
                g5: groups.5,
                g6: groups.6,
                g7: groups.7,
                prefix_len: pl,
            },
        )
    }

    /// Renders the network: eight hexadecimal groups, then `/prefix` when
    /// present.
    pub fn to_text(&self) -> (r: String)
        ensures
            r@ == ipv6_text(*self),
    {
        let mut out = String::new();
        push_u16_hex(&mut out, self.g0);
        out.append(":");
        push_u16_hex(&mut out, self.g1);
        out.append(":");
        push_u16_hex(&mut out, self.g2);
        out.append(":");
        push_u16_hex(&mut out, self.g3);
        out.append(":");
        push_u16_hex(&mut out, self.g4);
        out.append(":");
        push_u16_hex(&mut out, self.g5);
        out.append(":");
        push_u16_hex(&mut out, self.g6);
        out.append(":");
        push_u16_hex(&mut out, self.g7);
        proof {
            reveal_strlit(":");
            assert((":")@ =~= seq![':']);
        }
        match self.prefix_len {
            Some(p) => {
                out.append("/");
                push_u8_dec(&mut out, p);
                proof {
                    reveal_strlit("/");
                    assert(("/")@ =~= seq!['/']);
                    assert(out@ =~= ipv6_text(*self));
                }
            }
            None => {
                proof {
                    assert(out@ =~= ipv6_text(*self));
                }
            }
        }
        out
    }

    /// Parses CIDR notation over the full eight-group address form.
    pub fn from_str(s: &str) -> (r: Result<Self, ValidationError>)
        ensures
            match r {
                Ok(n) => parse_ipv6net(s@) == Some(n),
                Err(_) => parse_ipv6net(s@).is_none(),
            },
    {
        let slash_parts = split_char(s, '/');
        if slash_parts.len() > 2 {
            return Err(ValidationError::new("Invalid IPv6 network"));
        }
        proof {
            assert(slash_parts.deep_view()[0] == slash_parts@[0]@);
            if slash_parts.deep_view().len() == 1 {
                lemma_split_len1(s@, '/');
            }
        }
        let groups = match Self::parse_addr(slash_parts[0]) {
            Some(v) => v,
            None => {
                return Err(ValidationError::new("Invalid IPv6 address"));
            }
        };
        if slash_parts.len() == 2 {
            proof {
                assert(slash_parts.deep_view()[1] == slash_parts@[1]@);
            }
            let p = match dec_u8_of(slash_parts[1]) {
                Some(p) => p,
                None => {
                    return Err(ValidationError::new("Invalid prefix length"));
                }
            };
            if p > 128 {
                return Err(ValidationError::new("Prefix length must be between 0 and 128"));
            }
            let pl = if p == 128 { None } else { Some(p) };
            Ok(
                Ipv6Net {
                    g0: groups.0,
                    g1: groups.1,
                    g2: groups.2,
                    g3: groups.3,
                    g4: groups.4,
                    g5: groups.5,
                    g6: groups.6,
                    g7: groups.7,
                    prefix_len: pl,
                },
            )
        } else {
            Ok(
                Ipv6Net {
                    g0: groups.0,
                    g1: groups.1,
                    g2: groups.2,
                    g3: groups.3,
                    g4: groups.4,
                    g5: groups.5,
                    g6: groups.6,
                    g7: groups.7,
                    prefix_len: None,
                },
            )
        }
    }

    /// Parses the eight-group address form.
    fn parse_addr(s: &str) -> (r: Option<(u16, u16, u16, u16, u16, u16, u16, u16)>)
        ensures
            match r {
                Some(g) => parse_ipv6_addr(s@) == Some((
                    g.0 as int,
                    g.1 as int,
                    g.2 as int,
                    g.3 as int,
                    g.4 as int,
                    g.5 as int,
                    g.6 as int,
                    g.7 as int,
                )),
                None => parse_ipv6_addr(s@).is_none(),
            },
    {
        let parts = split_char(s, ':');
        if parts.len() != 8 {
            return None;
        }
        proof {
            assert(parts.deep_view()[0] == parts@[0]@);
            assert(parts.deep_view()[1] == parts@[1]@);
            assert(parts.deep_view()[2] == parts@[2]@);
            assert(parts.deep_view()[3] == parts@[3]@);
            assert(parts.deep_view()[4] == parts@[4]@);
            assert(parts.deep_view()[5] == parts@[5]@);
            assert(parts.deep_view()[6] == parts@[6]@);
            assert(parts.deep_view()[7] == parts@[7]@);
        }
        let g0 = match hex_u16_of(parts[0]) {
            Some(v) => v,
            None => { return None; }
        };
        let g1 = match hex_u16_of(parts[1]) {
            Some(v) => v,
            None => { return None; }
        };
        let g2 = match hex_u16_of(parts[2]) {
            Some(v) => v,
            None => { return None; }
        };
        let g3 = match hex_u16_of(parts[3]) {
            Some(v) => v,
            None => { return None; }
        };
        let g4 = match hex_u16_of(parts[4]) {
            Some(v) => v,
            None => { return None; }
        };
        let g5 = match hex_u16_of(parts[5]) {
            Some(v) => v,
            None => { return None; }
        };
        let g6 = match hex_u16_of(parts[6]) {
            Some(v) => v,
            None => { return None; }
        };
        let g7 = match hex_u16_of(parts[7]) {
            Some(v) => v,
            None => { return None; }
        };
        Some((g0, g1, g2, g3, g4, g5, g6, g7))
    }
}

/// The eight-group rendering of an address parses back to its groups, and
/// contains no slash.
#[verifier::rlimit(100)]
proof fn lemma_ipv6_addr_round_trip(n: Ipv6Net)
    ensures
        parse_ipv6_addr(ipv6_addr_text(n)) == Some((
            n.g0 as int,
            n.g1 as int,
            n.g2 as int,
            n.g3 as int,
            n.g4 as int,
            n.g5 as int,
            n.g6 as int,
            n.g7 as int,
        )),
        forall|j: int| 0 <= j < ipv6_addr_text(n).len() ==> ipv6_addr_text(n)[j] != '/',
{
    let h0 = u16_hex(n.g0 as int);
    let h1 = u16_hex(n.g1 as int);
    let h2 = u16_hex(n.g2 as int);
    let h3 = u16_hex(n.g3 as int);
    let h4 = u16_hex(n.g4 as int);
    let h5 = u16_hex(n.g5 as int);
    let h6 = u16_hex(n.g6 as int);
    let h7 = u16_hex(n.g7 as int);
    lemma_u16_hex_parse(n.g0 as int);
    lemma_u16_hex_parse(n.g1 as int);
    lemma_u16_hex_parse(n.g2 as int);
    lemma_u16_hex_parse(n.g3 as int);
    lemma_u16_hex_parse(n.g4 as int);
    lemma_u16_hex_parse(n.g5 as int);
    lemma_u16_hex_parse(n.g6 as int);
    lemma_u16_hex_parse(n.g7 as int);
    lemma_hex_not_sep(h0);
    lemma_hex_not_sep(h1);
    lemma_hex_not_sep(h2);
    lemma_hex_not_sep(h3);
    lemma_hex_not_sep(h4);
    lemma_hex_not_sep(h5);
    lemma_hex_not_sep(h6);
    lemma_hex_not_sep(h7);
    let addr = ipv6_addr_text(n);
    lemma_split_join8(h0, h1, h2, h3, h4, h5, h6, h7, ':');
    assert(split_on(addr, ':') == seq![h0, h1, h2, h3, h4, h5, h6, h7]);
}

/// Rendering an IPv6 network and parsing the text gives the network back.
#[verifier::rlimit(100)]
pub proof fn lemma_ipv6_round_trip(n: Ipv6Net)
    requires
        ipv6net_wf(n),
    ensures
        parse_ipv6net(ipv6_text(n)) == Some(n),
{
    lemma_ipv6_addr_round_trip(n);
    let addr = ipv6_addr_text(n);
    let g = (
        n.g0 as int,
        n.g1 as int,
        n.g2 as int,
        n.g3 as int,
        n.g4 as int,
        n.g5 as int,
        n.g6 as int,
        n.g7 as int,
    );
    assert(ipv6_of(g, n.prefix_len) == n);
    match n.prefix_len {
        Some(p) => {
            let dp = u8_dec(p as int);
            lemma_u8_dec_parse(p as int);
            lemma_dec_not_sep(dp);
            lemma_split_prepend(addr, '/', dp);
            lemma_split_no_sep(dp, '/');
            assert(ipv6_text(n) == addr + seq!['/'] + dp);
            assert(split_on(ipv6_text(n), '/') =~= seq![addr, dp]);
        }
        None => {
            lemma_split_no_sep(addr, '/');
            assert(split_on(ipv6_text(n), '/') =~= seq![addr]);
        }
    }
}

// ---------------------------------------------------------------------------
// MAC addresses
// ---------------------------------------------------------------------------

/// A MAC address in EUI-48 format.
#[derive(Debug, Clone, Copy, PartialEq, Eq, Structural, Hash, PartialOrd, Ord)]
pub struct MacAddr6 {
    pub b0: u8,
    pub b1: u8,
    pub b2: u8,
    pub b3: u8,
    pub b4: u8,
    pub b5: u8,
}

/// A MAC address in EUI-64 format.
#[derive(Debug, Clone, Copy, PartialEq, Eq, Structural, Hash, PartialOrd, Ord)]
pub struct MacAddr8 {
    pub b0: u8,
    pub b1: u8,
    pub b2: u8,
    pub b3: u8,
    pub b4: u8,
    pub b5: u8,
    pub b6: u8,
    pub b7: u8,
}

/// A MAC address, in either EUI-48 or EUI-64 format.
#[derive(Debug, Clone, Copy, PartialEq, Eq, Structural, Hash, PartialOrd, Ord)]
pub enum MacAddr {
    V6(MacAddr6),
    V8(MacAddr8),
}

/// The canonical text of an EUI-48 address: uppercase hexadecimal pairs
/// joined by colons.
pub open spec fn mac6_text(m: MacAddr6) -> Seq<char> {
    hex2_upper(m.b0 as int) + seq![':'] + hex2_upper(m.b1 as int) + seq![':']
        + hex2_upper(m.b2 as int) + seq![':'] + hex2_upper(m.b3 as int) + seq![':']
        + hex2_upper(m.b4 as int) + seq![':'] + hex2_upper(m.b5 as int)
}

/// The canonical text of an EUI-64 address.
pub open spec fn mac8_text(m: MacAddr8) -> Seq<char> {
    hex2_upper(m.b0 as int) + seq![':'] + hex2_upper(m.b1 as int) + seq![':']
        + hex2_upper(m.b2 as int) + seq![':'] + hex2_upper(m.b3 as int) + seq![':']
        + hex2_upper(m.b4 as int) + seq![':'] + hex2_upper(m.b5 as int) + seq![':']
        + hex2_upper(m.b6 as int) + seq![':'] + hex2_upper(m.b7 as int)
}

/// The canonical text of a MAC address.
pub open spec fn mac_text(m: MacAddr) -> Seq<char> {
    match m {
        MacAddr::V6(a) => mac6_text(a),
        MacAddr::V8(a) => mac8_text(a),
    }
}

/// Six two-digit groups as an EUI-48 address.
pub open spec fn parse_mac6_parts(parts: Seq<Seq<char>>) -> Option<MacAddr6> {
    if parts.len() == 6 {
        match (
            parse_hex2(parts[0]),
            parse_hex2(parts[1]),
            parse_hex2(parts[2]),
            parse_hex2(parts[3]),
            parse_hex2(parts[4]),
            parse_hex2(parts[5]),
        ) {
            (Some(b0), Some(b1), Some(b2), Some(b3), Some(b4), Some(b5)) => Some(
                MacAddr6 {
                    b0: b0 as u8,
                    b1: b1 as u8,
                    b2: b2 as u8,
                    b3: b3 as u8,
                    b4: b4 as u8,
                    b5: b5 as u8,
                },
            ),
            _ => None,
        }
    } else {
        None
    }
}

/// Eight two-digit groups as an EUI-64 address.
pub open spec fn parse_mac8_parts(parts: Seq<Seq<char>>) -> Option<MacAddr8> {
    if parts.len() == 8 {
        match (
            parse_hex2(parts[0]),
            parse_hex2(parts[1]),
            parse_hex2(parts[2]),
            parse_hex2(parts[3]),
            parse_hex2(parts[4]),
            parse_hex2(parts[5]),
            parse_hex2(parts[6]),
            parse_hex2(parts[7]),
        ) {
            (
                Some(b0),
                Some(b1),
                Some(b2),
                Some(b3),
                Some(b4),
                Some(b5),
                Some(b6),
                Some(b7),
            ) => Some(
                MacAddr8 {
                    b0: b0 as u8,
                    b1: b1 as u8,
                    b2: b2 as u8,
                    b3: b3 as u8,
                    b4: b4 as u8,
                    b5: b5 as u8,
                    b6: b6 as u8,
                    b7: b7 as u8,
                },
            ),
            _ => None,
        }
    } else {
        None
    }
}

/// The address a string names: six or eight hexadecimal pairs, joined by
/// colons or by hyphens, letters of either case.
pub open spec fn parse_mac(s: Seq<char>) -> Option<MacAddr> {
    let pc = split_on(s, ':');
    if pc.len() == 6 {
        match parse_mac6_parts(pc) {
            Some(m) => Some(MacAddr::V6(m)),
            None => None,
        }
    } else if pc.len() == 8 {
        match parse_mac8_parts(pc) {
            Some(m) => Some(MacAddr::V8(m)),
            None => None,
        }
    } else {
        let pd = split_on(s, '-');
        if pd.len() == 6 {
            match parse_mac6_parts(pd) {
                Some(m) => Some(MacAddr::V6(m)),
                None => None,
            }
        } else if pd.len() == 8 {
            match parse_mac8_parts(pd) {
                Some(m) => Some(MacAddr::V8(m)),
                None => None,
            }
        } else {
            None
        }
    }
}

/// The EUI-48 address a string names, with the same group shapes as
/// [`parse_mac`].
pub open spec fn parse_mac6(s: Seq<char>) -> Option<MacAddr6> {
    let pc = split_on(s, ':');
    if pc.len() == 6 {
        parse_mac6_parts(pc)
    } else {
        let pd = split_on(s, '-');
        if pd.len() == 6 {
            parse_mac6_parts(pd)
        } else {
            None
        }
    }
}

impl MacAddr6 {
    /// Renders the address as uppercase pairs joined by colons.
    pub fn to_text(&self) -> (r: String)
        ensures
            r@ == mac6_text(*self),
    {
        let mut out = String::new();
        push_hex2_upper(&mut out, self.b0);
        out.append(":");
        push_hex2_upper(&mut out, self.b1);
        out.append(":");
        push_hex2_upper(&mut out, self.b2);
        out.append(":");
        push_hex2_upper(&mut out, self.b3);
        out.append(":");
        push_hex2_upper(&mut out, self.b4);
        out.append(":");
        push_hex2_upper(&mut out, self.b5);
        proof {
            reveal_strlit(":");
            assert((":")@ =~= seq![':']);
            assert(out@ =~= mac6_text(*self));
        }
        out
    }

    /// Parses an EUI-48 address.
    pub fn from_str(s: &str) -> (r: Result<Self, ValidationError>)
        ensures
            match r {
                Ok(m) => parse_mac6(s@) == Some(m),
                Err(_) => parse_mac6(s@).is_none(),
            },
    {
        let colon_parts = split_char(s, ':');
        if colon_parts.len() == 6 {
            match mac6_of_parts(&colon_parts) {
                Some(m) => Ok(m),
                None => Err(ValidationError::new("invalid MAC address")),
            }
        } else {
            let dash_parts = split_char(s, '-');
            if dash_parts.len() == 6 {
                match mac6_of_parts(&dash_parts) {
                    Some(m) => Ok(m),
                    None => Err(ValidationError::new("invalid MAC address")),
                }
            } else {
                Err(ValidationError::new("invalid MAC address"))
            }
        }
    }
}

impl MacAddr8 {
    /// Renders the address as uppercase pairs joined by colons.
    pub fn to_text(&self) -> (r: String)
        ensures
            r@ == mac8_text(*self),
    {
        let mut out = String::new();
        push_hex2_upper(&mut out, self.b0);
        out.append(":");
        push_hex2_upper(&mut out, self.b1);
        out.append(":");
        push_hex2_upper(&mut out, self.b2);
        out.append(":");
        push_hex2_upper(&mut out, self.b3);
        out.append(":");
        push_hex2_upper(&mut out, self.b4);
        out.append(":");
        push_hex2_upper(&mut out, self.b5);
        out.append(":");
        push_hex2_upper(&mut out, self.b6);
        out.append(":");
        push_hex2_upper(&mut out, self.b7);
        proof {
            reveal_strlit(":");
            assert((":")@ =~= seq![':']);
            assert(out@ =~= mac8_text(*self));
        }
        out
    }
}

/// Reads six two-digit groups.
fn mac6_of_parts(parts: &Vec<&str>) -> (r: Option<MacAddr6>)
    requires
        parts.deep_view().len() == 6,
    ensures
        match r {
            Some(m) => parse_mac6_parts(parts.deep_view()) == Some(m),
            None => parse_mac6_parts(parts.deep_view()).is_none(),
        },
{
    proof {
        assert(parts.deep_view()[0] == parts@[0]@);
        assert(parts.deep_view()[1] == parts@[1]@);
        assert(parts.deep_view()[2] == parts@[2]@);
        assert(parts.deep_view()[3] == parts@[3]@);
        assert(parts.deep_view()[4] == parts@[4]@);
        assert(parts.deep_view()[5] == parts@[5]@);
    }
    let b0 = match hex2_of(parts[0]) {
        Some(v) => v,
        None => { return None; }
    };
    let b1 = match hex2_of(parts[1]) {
        Some(v) => v,
        None => { return None; }
    };
    let b2 = match hex2_of(parts[2]) {
        Some(v) => v,
        None => { return None; }
    };
    let b3 = match hex2_of(parts[3]) {
        Some(v) => v,
        None => { return None; }
    };
    let b4 = match hex2_of(parts[4]) {
        Some(v) => v,
        None => { return None; }
    };
    let b5 = match hex2_of(parts[5]) {
        Some(v) => v,
        None => { return None; }
    };
    Some(MacAddr6 { b0, b1, b2, b3, b4, b5 })
}

/// Reads eight two-digit groups.
fn mac8_of_parts(parts: &Vec<&str>) -> (r: Option<MacAddr8>)
    requires
        parts.deep_view().len() == 8,
    ensures
        match r {
            Some(m) => parse_mac8_parts(parts.deep_view()) == Some(m),
            None => parse_mac8_parts(parts.deep_view()).is_none(),
        },
{
    proof {
        assert(parts.deep_view()[0] == parts@[0]@);
        assert(parts.deep_view()[1] == parts@[1]@);
        assert(parts.deep_view()[2] == parts@[2]@);
        assert(parts.deep_view()[3] == parts@[3]@);
        assert(parts.deep_view()[4] == parts@[4]@);
        assert(parts.deep_view()[5] == parts@[5]@);
        assert(parts.deep_view()[6] == parts@[6]@);
        assert(parts.deep_view()[7] == parts@[7]@);
    }
    let b0 = match hex2_of(parts[0]) {
        Some(v) => v,
        None => { return None; }
    };
    let b1 = match hex2_of(parts[1]) {
        Some(v) => v,
        None => { return None; }
    };
    let b2 = match hex2_of(parts[2]) {
        Some(v) => v,
        None => { return None; }
    };
    let b3 = match hex2_of(parts[3]) {
        Some(v) => v,
        None => { return None; }
    };
    let b4 = match hex2_of(parts[4]) {
        Some(v) => v,
        None => { return None; }
    };
    let b5 = match hex2_of(parts[5]) {
        Some(v) => v,
        None => { return None; }
    };
    let b6 = match hex2_of(parts[6]) {
        Some(v) => v,
        None => { return None; }
    };
    let b7 = match hex2_of(parts[7]) {
        Some(v) => v,
        None => { return None; }
    };
    Some(MacAddr8 { b0, b1, b2, b3, b4, b5, b6, b7 })
}

impl MacAddr {
    /// Renders the address as uppercase pairs joined by colons.
    pub fn to_text(&self) -> (r: String)
        ensures
            r@ == mac_text(*self),
    {
        match self {
            MacAddr::V6(a) => a.to_text(),
            MacAddr::V8(a) => a.to_text(),
        }
    }

    /// Parses a MAC address in either format.
    pub fn from_str(s: &str) -> (r: Result<Self, ValidationError>)
        ensures
            match r {
                Ok(m) => parse_mac(s@) == Some(m),
                Err(_) => parse_mac(s@).is_none(),
            },
    {
        let colon_parts = split_char(s, ':');
        if colon_parts.len() == 6 {
            match mac6_of_parts(&colon_parts) {
                Some(m) => Ok(MacAddr::V6(m)),
                None => Err(ValidationError::new("invalid MAC address")),
            }
        } else if colon_parts.len() == 8 {
            match mac8_of_parts(&colon_parts) {
                Some(m) => Ok(MacAddr::V8(m)),
                None => Err(ValidationError::new("invalid MAC address")),
            }
        } else {
            let dash_parts = split_char(s, '-');
            if dash_parts.len() == 6 {
                match mac6_of_parts(&dash_parts) {
                    Some(m) => Ok(MacAddr::V6(m)),
                    None => Err(ValidationError::new("invalid MAC address")),
                }
            } else if dash_parts.len() == 8 {
                match mac8_of_parts(&dash_parts) {
                    Some(m) => Ok(MacAddr::V8(m)),
                    None => Err(ValidationError::new("invalid MAC address")),
                }
            } else {
                Err(ValidationError::new("invalid MAC address"))
            }
        }
    }
}

/// Hexadecimal pairs contain only hexadecimal digits.
proof fn lemma_hex2_upper_hex(n: int)
    requires
        0 <= n < 256,
    ensures
        all_hex(hex2_upper(n)),
        parse_hex2(hex2_upper(n)) == Some(n),
{
    lemma_hex2_upper_parse(n);
}

/// Rendering an EUI-48 address and parsing the text gives it back.
#[verifier::rlimit(100)]
pub proof fn lemma_mac6_round_trip(m: MacAddr6)
    ensures
        parse_mac6(mac6_text(m)) == Some(m),
        parse_mac(mac6_text(m)) == Some(MacAddr::V6(m)),
{
    let h0 = hex2_upper(m.b0 as int);
    let h1 = hex2_upper(m.b1 as int);
    let h2 = hex2_upper(m.b2 as int);
    let h3 = hex2_upper(m.b3 as int);
    let h4 = hex2_upper(m.b4 as int);
    let h5 = hex2_upper(m.b5 as int);
    lemma_hex2_upper_hex(m.b0 as int);
    lemma_hex2_upper_hex(m.b1 as int);
    lemma_hex2_upper_hex(m.b2 as int);
    lemma_hex2_upper_hex(m.b3 as int);
    lemma_hex2_upper_hex(m.b4 as int);
    lemma_hex2_upper_hex(m.b5 as int);
    lemma_hex_not_sep(h0);
    lemma_hex_not_sep(h1);
    lemma_hex_not_sep(h2);
    lemma_hex_not_sep(h3);
    lemma_hex_not_sep(h4);
    lemma_hex_not_sep(h5);
    let text = mac6_text(m);
    lemma_split_join6(h0, h1, h2, h3, h4, h5, ':');
    assert(split_on(text, ':') == seq![h0, h1, h2, h3, h4, h5]);
}

/// Rendering an EUI-64 address and parsing the text gives it back.
#[verifier::rlimit(100)]
pub proof fn lemma_mac8_round_trip(m: MacAddr8)
    ensures
        parse_mac(mac8_text(m)) == Some(MacAddr::V8(m)),
{
    let h0 = hex2_upper(m.b0 as int);
    let h1 = hex2_upper(m.b1 as int);
    let h2 = hex2_upper(m.b2 as int);
    let h3 = hex2_upper(m.b3 as int);
    let h4 = hex2_upper(m.b4 as int);
    let h5 = hex2_upper(m.b5 as int);
    let h6 = hex2_upper(m.b6 as int);
    let h7 = hex2_upper(m.b7 as int);
    lemma_hex2_upper_hex(m.b0 as int);
    lemma_hex2_upper_hex(m.b1 as int);
    lemma_hex2_upper_hex(m.b2 as int);
    lemma_hex2_upper_hex(m.b3 as int);
    lemma_hex2_upper_hex(m.b4 as int);
    lemma_hex2_upper_hex(m.b5 as int);
    lemma_hex2_upper_hex(m.b6 as int);
    lemma_hex2_upper_hex(m.b7 as int);
    lemma_hex_not_sep(h0);
    lemma_hex_not_sep(h1);
    lemma_hex_not_sep(h2);
    lemma_hex_not_sep(h3);
    lemma_hex_not_sep(h4);
    lemma_hex_not_sep(h5);
    lemma_hex_not_sep(h6);
    lemma_hex_not_sep(h7);
    let text = mac8_text(m);
    lemma_split_join8(h0, h1, h2, h3, h4, h5, h6, h7, ':');
    assert(split_on(text, ':') == seq![h0, h1, h2, h3, h4, h5, h6, h7]);
}

/// Rendering a MAC address and parsing the text gives it back.
pub proof fn lemma_mac_round_trip(m: MacAddr)
    ensures
        parse_mac(mac_text(m)) == Some(m),
{
    match m {
        MacAddr::V6(a) => lemma_mac6_round_trip(a),
        MacAddr::V8(a) => lemma_mac8_round_trip(a),
    }
}

} // verus!

//! The radar client's decisions: the server address it uses, and when it
//! connects, sends, or reports its status. The caller does the networking.

use vstd::prelude::*;
use vstd::string::StringSliceAdditionalSpecFns;
use vstd::utf8::{encode_utf8, is_char_boundary, valid_utf8};
use crate::messages::RadarStatus;
use vstd::string::StringExecFns;
use crate::session_id::{id_text, parse_id, parsed_id, spec_id_text};
use crate::text::{
    has_prefix, lemma_ascii_prefix_boundary, lemma_encode_concat, spec_trim, str_eq, substr, trim_str,
};

verus! {

broadcast use vstd::utf8::encode_utf8_valid_utf8;

/// The bytes of `http://`.
pub open spec fn http_prefix() -> Seq<u8> {
    seq![104u8, 116u8, 116u8, 112u8, 58u8, 47u8, 47u8]
}

/// The bytes of `https://`.
pub open spec fn https_prefix() -> Seq<u8> {
    seq![104u8, 116u8, 116u8, 112u8, 115u8, 58u8, 47u8, 47u8]
}

/// `b` without its trailing slashes.
pub open spec fn strip_trailing_slashes(b: Seq<u8>) -> Seq<u8>
    decreases b.len(),
{
    if b.len() > 0 && b.last() == 47 {
        strip_trailing_slashes(b.drop_last())
    } else {
        b
    }
}

/// The server address as the radar uses it: trimmed, without an `http://`
/// or `https://` scheme, and without trailing slashes.
pub open spec fn spec_normalize_url(b: Seq<u8>) -> Seq<u8> {
    let t = spec_trim(b);
    let u = if has_prefix(t, http_prefix()) {
        t.subrange(7, t.len() as int)
    } else if has_prefix(t, https_prefix()) {
        t.subrange(8, t.len() as int)
    } else {
        t
    };
    strip_trailing_slashes(u)
}

fn starts_with_bytes(b: &[u8], p: &[u8]) -> (r: bool)
    ensures
        r == has_prefix(b@, p@),
{
    crate::text::bytes_starts_with(b, p)
}

/// Normalizes a server address (see `spec_normalize_url`).
pub fn normalize_url(url: &str) -> (r: String)
    ensures
        encode_utf8(r@) == spec_normalize_url(url.spec_bytes()),
{
    let t = trim_str(url);
    let tb = t.as_bytes();
    let http: [u8; 7] = [104, 116, 116, 112, 58, 47, 47];
    let https: [u8; 8] = [104, 116, 116, 112, 115, 58, 47, 47];
    assert(http@ =~= http_prefix());
    assert(https@ =~= https_prefix());
    let skip: usize = if starts_with_bytes(tb, http.as_slice()) {
        7
    } else if starts_with_bytes(tb, https.as_slice()) {
        8
    } else {
        0
    };
    proof {
        if skip > 0 {
            assert forall|k: int| 0 <= k < skip implies tb@[k] < 0x80 by {
                if skip == 7 {
                    assert(tb@.subrange(0, 7)[k] == http_prefix()[k]);
                } else {
                    assert(tb@.subrange(0, 8)[k] == https_prefix()[k]);
                }
            }
            lemma_ascii_prefix_boundary(tb@, skip as int);
        }
        vstd::utf8::is_char_boundary_start_end_of_seq(tb@);
    }
    let u = substr(t, skip, tb.len());
    let ub = u.as_bytes();
    proof {
        let tt = spec_trim(url.spec_bytes());
        assert(tb@ == tt);
        let su = if has_prefix(tt, http_prefix()) {
            tt.subrange(7, tt.len() as int)
        } else if has_prefix(tt, https_prefix()) {
            tt.subrange(8, tt.len() as int)
        } else {
            tt
        };
        if skip == 0 {
            assert(tt.subrange(0, tt.len() as int) =~= tt);
        }
        assert(ub@ == su);
    }
    let mut end: usize = ub.len();
    assert(ub@.subrange(0, ub@.len() as int) =~= ub@);
    while end > 0 && ub[end - 1] == 47
        invariant
            end <= ub@.len(),
            strip_trailing_slashes(ub@.subrange(0, end as int)) == strip_trailing_slashes(ub@),
            forall|k: int| end <= k < ub@.len() ==> ub@[k] == 47,
        decreases end,
    {
        assert(ub@.subrange(0, end - 1) =~= ub@.subrange(0, end as int).drop_last());
        end -= 1;
    }
    proof {
        if end < ub@.len() {
            assert(ub@[end as int] == 47);
            vstd::utf8::is_char_boundary_iff_not_is_continuation_byte(ub@, end as int);
        } else {
            vstd::utf8::is_char_boundary_start_end_of_seq(ub@);
        }
    }
    assert(strip_trailing_slashes(ub@.subrange(0, end as int)) == ub@.subrange(0, end as int));
    let v = substr(u, 0, end);
    let r = v.to_owned();
    assert(encode_utf8(r@) == v.spec_bytes());
    r
}

/// What the radar does this tick.
#[derive(Debug, Clone, Copy, PartialEq, Eq, Structural)]
pub enum RadarAction {
    /// Disabled: stay idle.
    Idle,
    /// Enabled without a connection: connect to the server.
    Connect,
    /// Connected: send the game data.
    Send,
}

/// The radar's configuration and whether it holds a connection.
pub struct RadarLink {
    url: String,
    enabled: bool,
    connected: bool,
}

impl RadarLink {
    pub closed spec fn url(&self) -> Seq<char> {
        self.url@
    }

    pub closed spec fn enabled(&self) -> bool {
        self.enabled
    }

    pub closed spec fn connected(&self) -> bool {
        self.connected
    }

    /// Disabled, no address, not connected.
    pub fn new() -> (r: Self)
        ensures
            r.url() == Seq::<char>::empty(),
            !r.enabled(),
            !r.connected(),
    {
        RadarLink { url: String::new(), enabled: false, connected: false }
    }

    /// Takes in a new configuration: a changed address drops the connection
    /// and reports `Disconnected`; a disabled radar drops it and reports
    /// `Disabled`. Returns the statuses to report, in order.
    pub fn apply_config(&mut self, url: &str, enabled: bool) -> (statuses: Vec<RadarStatus>)
        ensures
            encode_utf8(final(self).url()) == spec_normalize_url(url.spec_bytes()),
            final(self).enabled() == enabled,
            final(self).connected() == (old(self).connected() && enabled && final(self).url()
                == old(self).url()),
            statuses@ == (if final(self).url() != old(self).url() {
                seq![RadarStatus::Disconnected]
            } else {
                seq![]
            }) + (if !enabled {
                seq![RadarStatus::Disabled]
            } else {
                seq![]
            }),
    {
        let url = normalize_url(url);
        let mut statuses: Vec<RadarStatus> = Vec::new();
        if !str_eq(url.as_str(), self.url.as_str()) {
            statuses.push(RadarStatus::Disconnected);
            self.connected = false;
        }
        self.url = url;
        self.enabled = enabled;
        if !enabled {
            statuses.push(RadarStatus::Disabled);
            self.connected = false;
        }
        assert(statuses@ =~= (if self.url() != old(self).url() {
            seq![RadarStatus::Disconnected]
        } else {
            seq![]
        }) + (if !enabled {
            seq![RadarStatus::Disabled]
        } else {
            seq![]
        }));
        statuses
    }

    /// What to do this tick; a disabled radar forgets its connection.
    pub fn tick(&mut self) -> (r: RadarAction)
        ensures
            r == (if !old(self).enabled() {
                RadarAction::Idle
            } else if !old(self).connected() {
                RadarAction::Connect
            } else {
                RadarAction::Send
            }),
            final(self).connected() == (old(self).enabled() && old(self).connected()),
            final(self).enabled() == old(self).enabled(),
            final(self).url() == old(self).url(),
    {
        if !self.enabled {
            self.connected = false;
            RadarAction::Idle
        } else if !self.connected {
            RadarAction::Connect
        } else {
            RadarAction::Send
        }
    }

    /// Records how connecting or sending went: a failure drops the connection
    /// and reports `FailedToConnect`; a new connection reports `Connected`.
    pub fn link_result(&mut self, ok: bool) -> (status: Option<RadarStatus>)
        ensures
            final(self).connected() == ok,
            status == (if !ok {
                Some(RadarStatus::FailedToConnect)
            } else if !old(self).connected() {
                Some(RadarStatus::Connected)
            } else {
                None
            }),
            final(self).enabled() == old(self).enabled(),
            final(self).url() == old(self).url(),
    {
        let was = self.connected;
        self.connected = ok;
        if !ok {
            Some(RadarStatus::FailedToConnect)
        } else if !was {
            Some(RadarStatus::Connected)
        } else {
            None
        }
    }
}


/// Whether a byte stays as it is in a URL query: ASCII letters and digits,
/// `-`, `.`, `_` and `~`.
pub open spec fn url_safe(c: u8) -> bool {
    (48 <= c <= 57) || (65 <= c <= 90) || (97 <= c <= 122) || c == 45 || c == 46 || c == 95 || c == 126
}

/// The upper-case ASCII digit of a value below 16.
pub open spec fn upper_hex_digit(d: int) -> u8 {
    if d < 10 {
        (48 + d) as u8
    } else {
        (55 + d) as u8
    }
}

/// Percent-encoding: every byte that is not URL-safe becomes `%` and its two
/// upper-case hexadecimal digits.
pub open spec fn spec_url_encode(b: Seq<u8>) -> Seq<u8>
    decreases b.len(),
{
    if b.len() == 0 {
        Seq::empty()
    } else {
        let rest = spec_url_encode(b.drop_last());
        let c = b.last();
        if url_safe(c) {
            rest.push(c)
        } else {
            rest + seq![37u8, upper_hex_digit(c as int / 16), upper_hex_digit(c as int % 16)]
        }
    }
}

/// Calls `urlencoding::encode`. Trusted: the result is the text percent
/// encoded as `spec_url_encode` says, which is how the crate's encoder
/// treats each byte.
#[verifier::external_body]
fn url_encode(text: &str) -> (r: String)
    ensures
        encode_utf8(r@) == spec_url_encode(text.spec_bytes()),
{
    urlencoding::encode(text).into_owned()
}

/// The bytes of `https://radar.avitrano.com/?url=`.
pub open spec fn radar_page_prefix() -> Seq<u8> {
    seq![
        104u8, 116u8, 116u8, 112u8, 115u8, 58u8, 47u8, 47u8, 114u8, 97u8, 100u8, 97u8, 114u8, 46u8,
        97u8, 118u8, 105u8, 116u8, 114u8, 97u8, 110u8, 111u8, 46u8, 99u8, 111u8, 109u8, 47u8, 63u8,
        117u8, 114u8, 108u8, 61u8,
    ]
}

/// The bytes of `&game=`.
pub open spec fn game_param() -> Seq<u8> {
    seq![38u8, 103u8, 97u8, 109u8, 101u8, 61u8]
}

proof fn lemma_radar_literals()
    ensures
        encode_utf8("https://radar.avitrano.com/?url="@) == radar_page_prefix(),
        encode_utf8("&game="@) == game_param(),
{
    reveal_strlit("https://radar.avitrano.com/?url=");
    reveal_strlit("&game=");
    let a = "https://radar.avitrano.com/?url="@;
    let b = "&game="@;
    assert(vstd::utf8::is_ascii_chars(a));
    assert(vstd::utf8::is_ascii_chars(b));
    vstd::utf8::is_ascii_chars_encode_utf8(a);
    vstd::utf8::is_ascii_chars_encode_utf8(b);
    assert(encode_utf8(a) =~= radar_page_prefix());
    assert(encode_utf8(b) =~= game_param());
}

/// The web page that shows a game's radar: the server address, percent
/// encoded, and the session id.
pub fn radar_page_url(url: &str, session: u128) -> (r: String)
    ensures
        encode_utf8(r@) == radar_page_prefix() + spec_url_encode(url.spec_bytes()) + game_param()
            + spec_id_text(session),
{
    let encoded = url_encode(url);
    let id = id_text(session);
    let r = String::from_str("https://radar.avitrano.com/?url=").concat(encoded.as_str()).concat(
        "&game=",
    ).concat(id.as_str());
    proof {
        lemma_radar_literals();
        let a = "https://radar.avitrano.com/?url="@;
        let g = "&game="@;
        lemma_encode_concat(a, encoded@);
        lemma_encode_concat(a + encoded@, g);
        lemma_encode_concat(a + encoded@ + g, id@);
    }
    r
}

/// Reads the session id the server answers a registration with.
pub fn registered_session(payload: &str) -> (r: Option<u128>)
    ensures
        r == parsed_id(payload.spec_bytes()),
{
    parse_id(payload)
}

} // verus!

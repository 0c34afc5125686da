//! Device-flow authentication: activation codes, polling decisions, and the
//! request and response shapes exchanged with the external activation
//! service. The HTTP calls themselves are made by the runtime around this
//! library; everything that decides lives here.

use vstd::prelude::*;
use vstd::string::{StrSliceExecFns, StringExecFns};

verus! {

/// A user id shortened for display: at most 8 characters, with `...` appended
/// when something was cut.
pub open spec fn truncated_id(s: Seq<char>) -> Seq<char> {
    if s.len() > 8 {
        s.subrange(0, 8) + seq!['.', '.', '.']
    } else {
        s
    }
}

/// Shorten a user id for display.
pub fn truncate_user_id(user_id: &str) -> (r: String)
    ensures
        r@ == truncated_id(user_id@),
{
    let len = user_id.unicode_len();
    if len > 8 {
        let head = user_id.substring_char(0, 8);
        let mut out = head.to_owned();
        out.append("...");
        proof {
            reveal_strlit("...");
            assert(out@ =~= truncated_id(user_id@));
        }
        out
    } else {
        user_id.to_owned()
    }
}


/// Configuration for the device flow.
#[derive(Debug, Clone)]
pub struct DeviceFlowConfig {
    /// Base URL of the web API.
    pub api_base_url: String,
    /// Internal API secret for authentication.
    pub internal_secret: String,
    /// How long codes are valid, in seconds.
    pub code_expiry_secs: u64,
    /// How often to poll for verification, in seconds.
    pub poll_interval_secs: u64,
    /// Maximum poll attempts before giving up.
    pub max_poll_attempts: u32,
}

impl DeviceFlowConfig {
    /// The activation URL shown to the user for a code.
    pub fn get_activation_url(&self, code: &str) -> (r: String)
        ensures
            r@ == self.api_base_url@ + "/activate?code="@ + code@,
    {
        let mut url = self.api_base_url.clone();
        url.append("/activate?code=");
        url.append(code);
        url
    }
}

impl Default for DeviceFlowConfig {
    /// Local-development defaults; the process environment is read by the
    /// runtime around this library, which overrides these fields.
    fn default() -> (r: Self)
        ensures
            r.api_base_url@ == "http://localhost:3000"@,
            r.internal_secret@ == "dev-secret"@,
            r.code_expiry_secs == 300,
            r.poll_interval_secs == 2,
            r.max_poll_attempts == 150,
    {
        DeviceFlowConfig {
            api_base_url: String::from_str("http://localhost:3000"),
            internal_secret: String::from_str("dev-secret"),
            code_expiry_secs: 300,
            poll_interval_secs: 2,
            max_poll_attempts: 150,
        }
    }
}

/// Request to register a new activation code.
#[derive(Debug)]
pub struct GenerateCodeRequest {
    pub code: String,
    pub session_id: String,
    pub expires_at: String,
}

/// Response from code registration.
#[derive(Debug)]
pub struct GenerateCodeResponse {
    pub success: Option<bool>,
    pub error: Option<String>,
}

/// Response from checking code status.
#[derive(Debug)]
pub struct CheckCodeResponse {
    pub status: String,
    pub user_id: Option<String>,
    pub error: Option<String>,
}

/// A user ratified by the device flow.
#[derive(Debug, Clone)]
pub struct VerifiedUser {
    pub user_id: String,
    pub display_name: Option<String>,
}

impl VerifiedUser {
    /// The display name, falling back to the truncated user id.
    pub fn display_name_or_id(&self) -> (r: String)
        ensures
            self.display_name matches Some(d) ==> r@ == d@,
            self.display_name is None ==> r@ == truncated_id(self.user_id@),
    {
        match &self.display_name {
            Some(d) => d.clone(),
            None => truncate_user_id(self.user_id.as_str()),
        }
    }
}

/// Bookkeeping record sent to the external device-flow service when a
/// tunnel is created.
#[derive(Debug)]
pub struct RegisterTunnelRequest {
    pub subdomain: String,
    pub user_id: String,
    pub session_id: String,
    pub requested_address: String,
    pub requested_port: u32,
    pub server_port: u32,
    pub client_ip: String,
}

/// An uppercase hexadecimal digit character.
pub open spec fn is_upper_hex_char(c: char) -> bool {
    ('0' <= c && c <= '9') || ('A' <= c && c <= 'F')
}

/// The shape of an activation code: four uppercase hexadecimal digits, a
/// hyphen, four more digits.
pub open spec fn activation_code_shape(s: Seq<char>) -> bool {
    &&& s.len() == 9
    &&& s[4] == '-'
    &&& forall|i: int| (0 <= i < 4 || 5 <= i < 9) ==> is_upper_hex_char(#[trigger] s[i])
}

/// The byte for one hexadecimal digit value, uppercase.
pub open spec fn hex_byte_upper(d: int) -> u8 {
    if d < 10 {
        (48 + d) as u8
    } else {
        (55 + d) as u8
    }
}

/// Appends four uppercase hexadecimal digits for a 16-bit value.
fn push_hex4_upper(out: &mut Vec<u8>, n: u16)
    ensures
        final(out)@ == old(out)@ + seq![
            hex_byte_upper((n >> 12) as int),
            hex_byte_upper(((n >> 8) & 0xf) as int),
            hex_byte_upper(((n >> 4) & 0xf) as int),
            hex_byte_upper((n & 0xf) as int),
        ],
{
    proof {
        assert((n >> 12) < 16 && ((n >> 8) & 0xf) < 16 && ((n >> 4) & 0xf) < 16 && (n & 0xf) < 16)
            by (bit_vector);
    }
    let d0 = (n >> 12) as u8;
    let d1 = ((n >> 8) & 0xf) as u8;
    let d2 = ((n >> 4) & 0xf) as u8;
    let d3 = (n & 0xf) as u8;
    out.push(if d0 < 10 {
        48 + d0
    } else {
        55 + d0
    });
    out.push(if d1 < 10 {
        48 + d1
    } else {
        55 + d1
    });
    out.push(if d2 < 10 {
        48 + d2
    } else {
        55 + d2
    });
    out.push(if d3 < 10 {
        48 + d3
    } else {
        55 + d3
    });
    proof {
        assert(out@ =~= old(out)@ + seq![
            hex_byte_upper((n >> 12) as int),
            hex_byte_upper(((n >> 8) & 0xf) as int),
            hex_byte_upper(((n >> 4) & 0xf) as int),
            hex_byte_upper((n & 0xf) as int),
        ]);
    }
}

/// Generate a random activation code of the form `XXXX-XXXX`.
pub fn generate_activation_code() -> (r: String)
    ensures
        activation_code_shape(r@),
{
    let part1 = crate::ext::random_u16_below(0xFFFF);
    let part2 = crate::ext::random_u16_below(0xFFFF);
    let mut out: Vec<u8> = Vec::new();
    push_hex4_upper(&mut out, part1);
    out.push(45);
    push_hex4_upper(&mut out, part2);
    proof {
        assert(crate::text::all_ascii(out@)) by {
            assert(forall|d: int| 0 <= d < 16 ==> hex_byte_upper(d) < 128);
            assert((part1 >> 12) < 16 && ((part1 >> 8) & 0xf) < 16 && ((part1 >> 4) & 0xf) < 16
                && (part1 & 0xf) < 16) by (bit_vector);
            assert((part2 >> 12) < 16 && ((part2 >> 8) & 0xf) < 16 && ((part2 >> 4) & 0xf) < 16
                && (part2 & 0xf) < 16) by (bit_vector);
        }
    }
    let code = crate::text::ascii_string(&out);
    proof {
        assert((part1 >> 12) < 16 && ((part1 >> 8) & 0xf) < 16 && ((part1 >> 4) & 0xf) < 16 && (
        part1 & 0xf) < 16) by (bit_vector);
        assert((part2 >> 12) < 16 && ((part2 >> 8) & 0xf) < 16 && ((part2 >> 4) & 0xf) < 16 && (
        part2 & 0xf) < 16) by (bit_vector);
        assert(activation_code_shape(code@));
    }
    code
}

/// What the poller does with one status answer from the activation service.
#[derive(Debug, Clone, PartialEq)]
pub enum PollStep {
    /// The code was ratified by this user: verification succeeds.
    Verified { user_id: String },
    /// The code expired: verification fails.
    Expired,
    /// The code is unknown to the service: verification fails.
    CodeNotFound,
    /// Still pending (or an unrecognised status): keep polling.
    Continue,
}

/// Decide the poller's next move from one status response.
///
/// `verified` with a user resolves; `expired` and `not_found` fail;
/// `pending`, a `verified` answer without a user, and anything
/// unrecognised keep polling.
pub fn evaluate_poll_response(resp: &CheckCodeResponse) -> (r: PollStep)
    ensures
        (resp.status@ == "verified"@ && resp.user_id is Some) ==> (r matches PollStep::Verified {
            user_id,
        } && resp.user_id matches Some(u) && user_id@ == u@),
        (resp.status@ == "verified"@ && resp.user_id is None) ==> r == PollStep::Continue,
        resp.status@ == "expired"@ ==> r == PollStep::Expired,
        resp.status@ == "not_found"@ ==> r == PollStep::CodeNotFound,
        (resp.status@ != "verified"@ && resp.status@ != "expired"@ && resp.status@
            != "not_found"@) ==> r == PollStep::Continue,
{
    proof {
        broadcast use vstd::string::group_string_axioms;

        reveal_strlit("verified");
        reveal_strlit("expired");
        reveal_strlit("not_found");
        assert("verified"@.len() == 8 && "expired"@.len() == 7 && "not_found"@.len() == 9);
    }
    if crate::text::str_eq(resp.status.as_str(), "verified") {
        match &resp.user_id {
            Some(u) => PollStep::Verified { user_id: u.clone() },
            None => PollStep::Continue,
        }
    } else if crate::text::str_eq(resp.status.as_str(), "expired") {
        PollStep::Expired
    } else if crate::text::str_eq(resp.status.as_str(), "not_found") {
        PollStep::CodeNotFound
    } else {
        PollStep::Continue
    }
}


/// Leap years of the Gregorian calendar.
pub open spec fn is_leap_year(y: int) -> bool {
    y % 4 == 0 && (y % 100 != 0 || y % 400 == 0)
}

/// Days in a year.
pub open spec fn days_in_year(y: int) -> int {
    if is_leap_year(y) {
        366
    } else {
        365
    }
}

/// Days in a month (1 through 12).
pub open spec fn days_in_month(y: int, m: int) -> int {
    if m == 2 {
        if is_leap_year(y) {
            29
        } else {
            28
        }
    } else if m == 4 || m == 6 || m == 9 || m == 11 {
        30
    } else {
        31
    }
}

/// The calendar year that a day count starting at year `y` falls in.
pub open spec fn year_from(y: int, days: int) -> int
    decreases days,
{
    if days < days_in_year(y) {
        y
    } else {
        year_from(y + 1, days - days_in_year(y))
    }
}

/// The day count left within the year found by `year_from`.
pub open spec fn year_rem_from(y: int, days: int) -> int
    decreases days,
{
    if days < days_in_year(y) {
        days
    } else {
        year_rem_from(y + 1, days - days_in_year(y))
    }
}

/// The month that a day count within year `y` falls in, scanning from
/// month `m`.
pub open spec fn month_from(y: int, m: int, days: int) -> int
    decreases 12 - m,
{
    if m >= 12 {
        12
    } else if days < days_in_month(y, m) {
        m
    } else {
        month_from(y, m + 1, days - days_in_month(y, m))
    }
}

/// The day count left within the month found by `month_from`.
pub open spec fn month_rem_from(y: int, m: int, days: int) -> int
    decreases 12 - m,
{
    if m >= 12 {
        days
    } else if days < days_in_month(y, m) {
        days
    } else {
        month_rem_from(y, m + 1, days - days_in_month(y, m))
    }
}

/// A number in decimal, zero-padded to two digits (numbers of three or
/// more digits keep them all).
pub open spec fn pad2_chars(n: int) -> Seq<char> {
    if n < 100 {
        seq![crate::text::dec_char(n / 10), crate::text::dec_char(n % 10)]
    } else {
        crate::text::dec_chars(n)
    }
}

/// A number in decimal, zero-padded to four digits (numbers of five or
/// more digits keep them all).
pub open spec fn pad4_chars(n: int) -> Seq<char> {
    if n <= 9999 {
        seq![
            crate::text::dec_char(n / 1000),
            crate::text::dec_char(n / 100 % 10),
            crate::text::dec_char(n / 10 % 10),
            crate::text::dec_char(n % 10),
        ]
    } else {
        crate::text::dec_chars(n)
    }
}

/// The timestamp string for a count of seconds since the Unix epoch:
/// `YYYY-MM-DDTHH:MM:SSZ`, with the date computed by Gregorian year and
/// month lengths from 1970.
pub open spec fn timestamp_chars(t: int) -> Seq<char> {
    let days = t / 86400;
    let secs = t % 86400;
    let y = year_from(1970, days);
    let dr = year_rem_from(1970, days);
    let mo = month_from(y, 1, dr);
    let dd = month_rem_from(y, 1, dr) + 1;
    pad4_chars(y) + seq!['-'] + pad2_chars(mo) + seq!['-'] + pad2_chars(dd) + seq!['T']
        + pad2_chars(secs / 3600) + seq![':'] + pad2_chars(secs % 3600 / 60) + seq![':']
        + pad2_chars(secs % 60) + seq!['Z']
}

/// Appends two zero-padded decimal digits.
fn push_pad2(out: &mut Vec<u8>, n: u64)
    requires
        n < 100,
    ensures
        final(out)@ == old(out)@ + seq![
            crate::text::dec_byte(n as int / 10),
            crate::text::dec_byte(n as int % 10),
        ],
{
    out.push(48 + (n / 10) as u8);
    out.push(48 + (n % 10) as u8);
    proof {
        assert(out@ =~= old(out)@ + seq![
            crate::text::dec_byte(n as int / 10),
            crate::text::dec_byte(n as int % 10),
        ]);
    }
}

/// Format a Unix timestamp (in seconds) as `YYYY-MM-DDTHH:MM:SSZ`.
#[verifier::rlimit(60)]
pub fn format_timestamp(unix_secs: u64) -> (r: String)
    ensures
        r@ == timestamp_chars(unix_secs as int),
{
    let days0: u64 = unix_secs / 86400;
    let secs_in_day: u64 = unix_secs % 86400;

    let mut year: u64 = 1970;
    let mut remaining: u64 = days0;
    loop
        invariant
            1970 <= year,
            days0 <= u64::MAX / 86400,
            year - 1970 <= days0 - remaining,
            year_from(1970, days0 as int) == year_from(year as int, remaining as int),
            year_rem_from(1970, days0 as int) == year_rem_from(year as int, remaining as int),
        ensures
            remaining < days_in_year(year as int),
            1970 <= year,
            year_from(1970, days0 as int) == year_from(year as int, remaining as int),
            year_rem_from(1970, days0 as int) == year_rem_from(year as int, remaining as int),
        decreases remaining,
    {
        let dy: u64 = if year % 4 == 0 && (year % 100 != 0 || year % 400 == 0) {
            366
        } else {
            365
        };
        proof {
            assert(dy == days_in_year(year as int));
        }
        if remaining < dy {
            break;
        }
        remaining = remaining - dy;
        year = year + 1;
    }
    proof {
        assert(year_from(1970, days0 as int) == year);
        assert(year_rem_from(1970, days0 as int) == remaining);
        assert(remaining < 366);
    }

    let mut month: u64 = 1;
    let mut mrem: u64 = remaining;
    loop
        invariant
            1 <= month <= 12,
            mrem <= remaining,
            remaining < 366,
            remaining < days_in_year(year as int),
            month_from(year as int, 1, remaining as int) == month_from(
                year as int,
                month as int,
                mrem as int,
            ),
            month_rem_from(year as int, 1, remaining as int) == month_rem_from(
                year as int,
                month as int,
                mrem as int,
            ),
        ensures
            1 <= month <= 12,
            month >= 12 || mrem < days_in_month(year as int, month as int),
            month_from(year as int, 1, remaining as int) == month_from(
                year as int,
                month as int,
                mrem as int,
            ),
            month_rem_from(year as int, 1, remaining as int) == month_rem_from(
                year as int,
                month as int,
                mrem as int,
            ),
            mrem < 31,
        decreases 12 - month,
    {
        let dm: u64 = month_days(year, month);
        if !(month < 12 && mrem >= dm) {
            proof {
                assert(mrem < 31) by {
                    if month < 12 {
                    } else {
                        lemma_month_rem_small(year as int, 1, remaining as int);
                    }
                }
            }
            break;
        }
        mrem = mrem - dm;
        month = month + 1;
    }
    proof {
        assert(month_from(year as int, 1, remaining as int) == month);
        assert(month_rem_from(year as int, 1, remaining as int) == mrem);
    }
    let day: u64 = mrem + 1;
    let hours: u64 = secs_in_day / 3600;
    let minutes: u64 = (secs_in_day % 3600) / 60;
    let seconds: u64 = secs_in_day % 60;

    let mut out: Vec<u8> = Vec::new();
    if year <= 9999 {
        out.push(48 + (year / 1000) as u8);
        out.push(48 + (year / 100 % 10) as u8);
        out.push(48 + (year / 10 % 10) as u8);
        out.push(48 + (year % 10) as u8);
    } else {
        crate::text::push_dec_u64(&mut out, year);
    }
    let ghost ybytes = out@;
    out.push(45);
    push_pad2(&mut out, month);
    out.push(45);
    push_pad2(&mut out, day);
    out.push(84);
    push_pad2(&mut out, hours);
    out.push(58);
    push_pad2(&mut out, minutes);
    out.push(58);
    push_pad2(&mut out, seconds);
    out.push(90);
    proof {
        crate::text::lemma_dec_props(year as int);
        crate::text::lemma_dec_bytes_chars(year as int);
        assert(crate::text::all_ascii(out@)) by {
            assert(forall|j: int|
                0 <= j < ybytes.len() ==> ybytes[j] < 128);
        }
    }
    let r = crate::text::ascii_string(&out);
    proof {
        assert(r@ =~= timestamp_chars(unix_secs as int)) by {
            assert(crate::text::chars_of(ybytes) =~= pad4_chars(year as int));
            assert(crate::text::chars_of(out@)[ybytes.len() as int] == '-');
        }
    }
    r
}

/// Days in a month, computed.
fn month_days(year: u64, month: u64) -> (r: u64)
    requires
        1 <= month <= 12,
    ensures
        r == days_in_month(year as int, month as int),
        28 <= r <= 31,
{
    if month == 2 {
        if year % 4 == 0 && (year % 100 != 0 || year % 400 == 0) {
            29
        } else {
            28
        }
    } else if month == 4 || month == 6 || month == 9 || month == 11 {
        30
    } else {
        31
    }
}

/// The timestamp of a moment `secs` seconds from now, for the code-expiry
/// field handed to the activation service. The sum saturates; the result
/// is always a well-formed timestamp (see `format_timestamp` for its exact
/// meaning on a given instant).
pub fn now_plus_secs(secs: u64) -> (r: String)
    ensures
        exists|t: u64| r@ == timestamp_chars(t as int),
{
    let now = crate::state::now_millis() / 1000;
    let t = if secs <= u64::MAX - now {
        now + secs
    } else {
        u64::MAX
    };
    let r = format_timestamp(t);
    proof {
        assert(r@ == timestamp_chars(t as int));
    }
    r
}


/// Scanning a day count smaller than a year through the months leaves
/// less than a month.
proof fn lemma_month_rem_small(y: int, m: int, days: int)
    requires
        1 <= m <= 12,
        0 <= days,
        days <= days_in_year(y) - 1 - sum_days_before(y, m),
    ensures
        month_rem_from(y, m, days) < 31,
    decreases 12 - m,
{
    if m >= 12 {
        assert(sum_days_before(y, 2) == sum_days_before(y, 1) + days_in_month(y, 1));
        assert(sum_days_before(y, 3) == sum_days_before(y, 2) + days_in_month(y, 2));
        assert(sum_days_before(y, 4) == sum_days_before(y, 3) + days_in_month(y, 3));
        assert(sum_days_before(y, 5) == sum_days_before(y, 4) + days_in_month(y, 4));
        assert(sum_days_before(y, 6) == sum_days_before(y, 5) + days_in_month(y, 5));
        assert(sum_days_before(y, 7) == sum_days_before(y, 6) + days_in_month(y, 6));
        assert(sum_days_before(y, 8) == sum_days_before(y, 7) + days_in_month(y, 7));
        assert(sum_days_before(y, 9) == sum_days_before(y, 8) + days_in_month(y, 8));
        assert(sum_days_before(y, 10) == sum_days_before(y, 9) + days_in_month(y, 9));
        assert(sum_days_before(y, 11) == sum_days_before(y, 10) + days_in_month(y, 10));
        assert(sum_days_before(y, 12) == sum_days_before(y, 11) + days_in_month(y, 11));
    } else if days < days_in_month(y, m) {
    } else {
        lemma_month_rem_small(y, m + 1, days - days_in_month(y, m));
    }
}

/// Days in the months before `m`.
pub open spec fn sum_days_before(y: int, m: int) -> int
    decreases m,
{
    if m <= 1 {
        0
    } else {
        sum_days_before(y, m - 1) + days_in_month(y, m - 1)
    }
}

} // verus!

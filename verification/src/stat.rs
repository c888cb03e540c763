//! A node's status block, printed the way zkCli's `stat` prints it.
use vstd::prelude::*;
use crate::text::{decimal_text, hex_text, push_decimal, push_hex};

verus! {

/// The status ZooKeeper keeps for a node.
#[derive(Clone, Copy, Debug, PartialEq, Eq, Structural)]
pub struct Stat {
    /// zxid of the change that created the node.
    pub czxid: i64,
    /// zxid of the change that last modified the node.
    pub mzxid: i64,
    /// zxid of the change that last modified its children.
    pub pzxid: i64,
    /// Creation time, in milliseconds since the epoch.
    pub ctime: i64,
    /// Last modification time, in milliseconds since the epoch.
    pub mtime: i64,
    /// Number of changes to the data.
    pub version: i32,
    /// Number of changes to the children.
    pub cversion: i32,
    /// Number of changes to the ACL.
    pub aversion: i32,
    /// Session owning an ephemeral node, zero otherwise.
    pub ephemeral_owner: i64,
    /// Length of the data.
    pub data_length: i32,
    /// Number of children.
    pub num_children: i32,
}

/// The layout of times in the status block, as zkCli prints them.
pub const TIME_PATTERN: &'static str = "%a %b %d %H:%M:%S %Z %Y";

/// Whether chrono's `DateTime::from_timestamp_millis` gives a time for
/// `millis`: exactly the instants from -262143-01-01T00:00:00Z to
/// 262142-12-31T23:59:59.999Z, the dates `NaiveDate` can represent.
pub open spec fn chrono_has_time(millis: i64) -> bool {
    -8334601228800000 <= millis <= 8210266876799999
}

/// The offset from UTC, in seconds, of the machine's local time zone at
/// `millis`, through chrono's `DateTime::from_timestamp_millis`, then
/// `with_timezone(&Local)` and `offset().local_minus_utc()`. There is one
/// exactly when chrono has a time for `millis`, and like every `FixedOffset`
/// it lies strictly within a day; which one it is depends on the machine and
/// is left unsaid.
#[verifier::external_body]
fn chrono_local_offset(millis: i64) -> (r: Option<i32>)
    ensures
        r is Some <==> chrono_has_time(millis),
        r matches Some(o) ==> -86_400 < o < 86_400,
{
    match chrono::DateTime::from_timestamp_millis(millis) {
        Some(time) => Some(time.with_timezone(&chrono::Local).offset().local_minus_utc()),
        None => None,
    }
}

/// What chrono prints for the instant `millis` seen at the fixed offset
/// `offset_secs` east of UTC, in the layout `pattern`.
pub uninterp spec fn chrono_text_at(millis: i64, offset_secs: i32, pattern: Seq<char>) -> Seq<char>;

/// The instant `millis` at the offset `offset_secs`, in `TIME_PATTERN`,
/// through chrono's `DateTime::from_timestamp_millis`,
/// `FixedOffset::east_opt`, `with_timezone`, `format` and `to_string`.
#[verifier::external_body]
fn chrono_fixed_text(millis: i64, offset_secs: i32, pattern: &str) -> (r: String)
    requires
        chrono_has_time(millis),
        -86_400 < offset_secs < 86_400,
        pattern@ == TIME_PATTERN@,
    ensures
        r@ == chrono_text_at(millis, offset_secs, pattern@),
{
    let offset = chrono::FixedOffset::east_opt(offset_secs).unwrap();
    chrono::DateTime::from_timestamp_millis(millis).unwrap().with_timezone(&offset).format(pattern).to_string()
}

/// The view of an optional string.
pub open spec fn opt_text(o: Option<String>) -> Option<Seq<char>> {
    match o {
        Some(s) => Some(s@),
        None => None,
    }
}

/// How a time is shown: the local time when there is one, else the raw milliseconds.
pub open spec fn time_shown(local: Option<Seq<char>>, millis: i64) -> Seq<char> {
    match local {
        Some(t) => t,
        None => decimal_text(millis as int),
    }
}

/// Whether `t` can be how `millis` is shown: the instant in local time, at
/// some offset within a day, when chrono can represent it; the number of
/// milliseconds otherwise.
pub open spec fn shows_time(millis: i64, t: Seq<char>) -> bool {
    if chrono_has_time(millis) {
        exists|o: i32| -86_400 < o < 86_400 && t == #[trigger] chrono_text_at(millis, o, TIME_PATTERN@)
    } else {
        t == decimal_text(millis as int)
    }
}

/// Shows a time given the local time text, if any.
pub fn time_text(local: Option<String>, millis: i64) -> (r: String)
    ensures
        r@ == time_shown(opt_text(local), millis),
{
    match local {
        Some(t) => t,
        None => {
            let mut s = String::new();
            push_decimal(&mut s, millis);
            s
        },
    }
}

/// Shows a time in milliseconds since the epoch as local time, or as the
/// number itself when it lies outside the dates chrono can represent.
/// The local time is chrono's text for the instant at the machine's offset.
pub fn format_time(millis: i64) -> (r: String)
    ensures
        shows_time(millis, r@),
{
    let local = match chrono_local_offset(millis) {
        Some(offset) => Some(chrono_fixed_text(millis, offset, TIME_PATTERN)),
        None => None,
    };
    time_text(local, millis)
}

/// The status block, given how its two times are shown.
pub open spec fn stat_block(s: Stat, ctime: Seq<char>, mtime: Seq<char>) -> Seq<char> {
    "cZxid = "@ + hex_text(s.czxid) + "\nctime = "@ + ctime + "\nmZxid = "@ + hex_text(s.mzxid)
        + "\nmtime = "@ + mtime + "\npZxid = "@ + hex_text(s.pzxid) + "\ncversion = "@
        + decimal_text(s.cversion as int) + "\ndataVersion = "@ + decimal_text(s.version as int)
        + "\naclVersion = "@ + decimal_text(s.aversion as int) + "\nephemeralOwner = "@ + hex_text(
        s.ephemeral_owner,
    ) + "\ndataLength = "@ + decimal_text(s.data_length as int) + "\nnumChildren = "@
        + decimal_text(s.num_children as int)
}

/// The status block with the two times already shown.
pub fn stat_text(s: &Stat, ctime: &str, mtime: &str) -> (r: String)
    ensures
        r@ == stat_block(*s, ctime@, mtime@),
{
    let mut out = String::from_str("cZxid = ");
    push_hex(&mut out, s.czxid);
    out.append("\nctime = ");
    out.append(ctime);
    out.append("\nmZxid = ");
    push_hex(&mut out, s.mzxid);
    out.append("\nmtime = ");
    out.append(mtime);
    out.append("\npZxid = ");
    push_hex(&mut out, s.pzxid);
    out.append("\ncversion = ");
    push_decimal(&mut out, s.cversion as i64);
    out.append("\ndataVersion = ");
    push_decimal(&mut out, s.version as i64);
    out.append("\naclVersion = ");
    push_decimal(&mut out, s.aversion as i64);
    out.append("\nephemeralOwner = ");
    push_hex(&mut out, s.ephemeral_owner);
    out.append("\ndataLength = ");
    push_decimal(&mut out, s.data_length as i64);
    out.append("\nnumChildren = ");
    push_decimal(&mut out, s.num_children as i64);
    out
}

/// Whether `r` is a status block of `s` whose times are shown faithfully.
pub open spec fn is_stat_block(s: Stat, r: Seq<char>) -> bool {
    exists|c: Seq<char>, m: Seq<char>|
        shows_time(s.ctime, c) && shows_time(s.mtime, m) && r == #[trigger] stat_block(s, c, m)
}

/// zkCli's status block for a node.
pub fn format_stat(s: &Stat) -> (r: String)
    ensures
        is_stat_block(*s, r@),
{
    let c = format_time(s.ctime);
    let m = format_time(s.mtime);
    let r = stat_text(s, c.as_str(), m.as_str());
    assert(shows_time(s.ctime, c@) && shows_time(s.mtime, m@) && r@ == stat_block(*s, c@, m@));
    r
}

} // verus!

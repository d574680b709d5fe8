//! Names of the directories of a report.

use vstd::prelude::*;
use vstd::string::*;

verus! {

/// The local date and time of an instant, written as `yymmdd_HHMMSS`, or
/// `None` where the instant or the time zone is out of the range of dates.
/// The instant is given in seconds since the Unix epoch, the time zone by the
/// seconds that its clocks are ahead of UTC.
pub uninterp spec fn stamp_text(secs: int, offset_secs: int) -> Option<Seq<char>>;

/// Writes an instant with `chrono::DateTime::format` and the pattern
/// `%y%m%d_%H%M%S`, in the zone that `chrono::FixedOffset::east_opt` makes of
/// the offset.
///
/// Trusted: what comes back is what `stamp_text` names, the text where
/// `chrono` accepts the instant and the offset, and `None` where
/// `chrono::DateTime::from_timestamp` or `east_opt` refuses one of them. The
/// pattern holds numbers only, so the result depends on nothing but the two
/// arguments.
#[verifier::external_body]
fn format_stamp(secs: i64, offset_secs: i32) -> (stamp: Option<String>)
    ensures
        match stamp {
            Some(text) => stamp_text(secs as int, offset_secs as int) == Some(text@),
            None => stamp_text(secs as int, offset_secs as int).is_none(),
        },
{
    let zone = chrono::FixedOffset::east_opt(offset_secs)?;
    let instant = chrono::DateTime::from_timestamp(secs, 0)?;
    Some(instant.with_timezone(&zone).format("%y%m%d_%H%M%S").to_string())
}

/// The name of the directory of the report stamped `stamp`.
pub fn directory_name(stamp: &str) -> (dir: String)
    ensures
        dir@ == "csTimer-Analysis_"@ + stamp@,
{
    let mut dir = String::from_str("csTimer-Analysis_");
    dir.append(stamp);
    dir
}

/// The name of the directory of a report begun at the given instant: the
/// directory named by the stamp of that instant, or `None` exactly when the
/// instant has no stamp.
pub fn report_directory(secs: i64, offset_secs: i32) -> (dir: Option<String>)
    ensures
        match stamp_text(secs as int, offset_secs as int) {
            Some(stamp) => dir matches Some(name) && name@ == "csTimer-Analysis_"@ + stamp,
            None => dir.is_none(),
        },
{
    match format_stamp(secs, offset_secs) {
        Some(stamp) => Some(directory_name(stamp.as_str())),
        None => None,
    }
}

/// The name of the directory that holds the images of the report in `dir`.
pub fn image_directory(dir: &str) -> (images: String)
    ensures
        images@ == dir@ + "/images"@,
{
    let mut images = String::from_str(dir);
    images.append("/images");
    images
}

} // verus!

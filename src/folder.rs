use vstd::prelude::*;

verus! {

/// The folder of one rating session:
/// `{base}/{dyad}_{participant}_{partner}_{initials}/`.
pub open spec fn folder_path(
    base: Seq<char>,
    dyad: Seq<char>,
    participant: Seq<char>,
    partner: Seq<char>,
    initials: Seq<char>,
) -> Seq<char> {
    base + "/"@ + dyad + "_"@ + participant + "_"@ + partner + "_"@ + initials + "/"@
}

/// Composes the path of a session's output folder from the base path and the
/// four naming components. No component is checked or escaped.
pub fn rating_folder_path(
    base_path: &str,
    dyad_id: &str,
    participant_id: &str,
    partner_id: &str,
    initials: &str,
) -> (r: String)
    ensures
        r@ == folder_path(base_path@, dyad_id@, participant_id@, partner_id@, initials@),
{
    let mut r = String::from_str(base_path);
    r.append("/");
    r.append(dyad_id);
    r.append("_");
    r.append(participant_id);
    r.append("_");
    r.append(partner_id);
    r.append("_");
    r.append(initials);
    r.append("/");
    r
}

} // verus!

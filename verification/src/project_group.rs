//! What a project card shows in its header: its title (the catch-all
//! "Other" card is shown in the user's language; project names stay verbatim) and its kind
//! badge.

use vstd::prelude::*;
use crate::i18n::{Lang, spec_tr, tr};
use crate::models::{ProjectKind, kind_label};
use crate::text::{chars_of, eq_str};

verus! {

/// The title shown on a card.
pub open spec fn spec_card_title(lang: Lang, title: Seq<char>) -> Seq<char> {
    if title == "Other"@ {
        spec_tr(lang, "Other"@)
    } else {
        title
    }
}

pub fn card_title(lang: Lang, title: &str) -> (r: String)
    ensures
        r@ == spec_card_title(lang, title@),
{
    let tv = chars_of(title);
    if eq_str(tv.as_slice(), "Other") {
        String::from_str(tr(lang, "Other"))
    } else {
        String::from_str(title)
    }
}

/// The badge of a card: the kind's label, except for the "Other" card and
/// projects of unknown kind, which have none.
pub open spec fn spec_kind_badge(kind: Option<ProjectKind>) -> Option<Seq<char>> {
    match kind {
        Some(k) => if k == ProjectKind::Unknown {
            None
        } else {
            Some(kind_label(k))
        },
        None => None,
    }
}

pub fn kind_badge(kind: Option<ProjectKind>) -> (r: Option<&'static str>)
    ensures
        match r {
            Some(b) => spec_kind_badge(kind) == Some(b@),
            None => spec_kind_badge(kind) is None,
        },
{
    match kind {
        Some(k) => if k == ProjectKind::Unknown {
            None
        } else {
            Some(k.label())
        },
        None => None,
    }
}

} // verus!

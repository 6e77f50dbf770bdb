//! Friendly process names for common dev tools, guessed from the full command
//! line (`node …/node_modules/.bin/vite` is shown as `vite`).

use vstd::prelude::*;
use crate::text::{chars_of, contains, contains_chars, lowercase, to_lowercase};

verus! {

/// Ordered `(needle, label)` pairs. The first needle found in the lower-cased
/// full command line wins.
pub open spec fn rules() -> Seq<(Seq<char>, Seq<char>)> {
    seq![
        ("vite"@, "vite"@),
        ("next-server"@, "next"@),
        ("next dev"@, "next"@),
        ("nuxt"@, "nuxt"@),
        ("astro"@, "astro"@),
        ("webpack"@, "webpack"@),
        ("remix"@, "remix"@),
        ("uvicorn"@, "uvicorn"@),
        ("gunicorn"@, "gunicorn"@),
        ("flask"@, "flask"@),
        ("manage.py runserver"@, "django"@),
        ("rails"@, "rails"@),
        ("prisma"@, "prisma"@),
        ("storybook"@, "storybook"@),
    ]
}

fn rule_table() -> (r: Vec<(&'static str, &'static str)>)
    ensures
        r@.map_values(|p: (&str, &str)| (p.0@, p.1@)) == rules(),
{
    let r = vec![
        ("vite", "vite"),
        ("next-server", "next"),
        ("next dev", "next"),
        ("nuxt", "nuxt"),
        ("astro", "astro"),
        ("webpack", "webpack"),
        ("remix", "remix"),
        ("uvicorn", "uvicorn"),
        ("gunicorn", "gunicorn"),
        ("flask", "flask"),
        ("manage.py runserver", "django"),
        ("rails", "rails"),
        ("prisma", "prisma"),
        ("storybook", "storybook"),
    ];
    assert(r@.map_values(|p: (&str, &str)| (p.0@, p.1@)) =~= rules());
    r
}

/// The label of the first rule from index `i` whose needle occurs in `h`.
pub open spec fn first_label_from(h: Seq<char>, i: int) -> Option<Seq<char>>
    decreases rules().len() - i,
{
    if i < 0 || i >= rules().len() {
        None
    } else if contains(h, rules()[i].0) {
        Some(rules()[i].1)
    } else {
        first_label_from(h, i + 1)
    }
}

/// The label of the first rule whose needle occurs in the lower-cased full
/// command line, else the command itself.
pub open spec fn spec_display_name(command: Seq<char>, full_command: Seq<char>) -> Seq<char> {
    match first_label_from(lowercase(full_command), 0) {
        Some(label) => label,
        None => command,
    }
}

pub fn display_name(command: &str, full_command: &str) -> (r: String)
    ensures
        r@ == spec_display_name(command@, full_command@),
{
    let lower = to_lowercase(full_command);
    let hay = chars_of(lower.as_str());
    let table = rule_table();
    let ghost tv = table@.map_values(|p: (&str, &str)| (p.0@, p.1@));
    let mut i: usize = 0;
    while i < table.len()
        invariant
            tv == table@.map_values(|p: (&str, &str)| (p.0@, p.1@)),
            tv == rules(),
            hay@ == lowercase(full_command@),
            0 <= i <= table@.len(),
            first_label_from(hay@, 0) == first_label_from(hay@, i as int),
        decreases table@.len() - i,
    {
        let (needle, label) = table[i];
        assert(tv[i as int] == (needle@, label@));
        let nv = chars_of(needle);
        if contains_chars(hay.as_slice(), nv.as_slice()) {
            return String::from_str(label);
        }
        i = i + 1;
    }
    String::from_str(command)
}

} // verus!

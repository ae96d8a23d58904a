//! The HTML listing: a minimal rendered page of the live records, one
//! list item per record, with the due timestamp shown as calendar
//! text. Rendering is pure presentation over the already-filtered
//! records and carries no further invariants.

use vstd::prelude::*;
use crate::homework::Homework;
use crate::numbers::dec_str;

verus! {

/// The calendar text a due timestamp renders as. The exact characters
/// are the date library's; they depend on the timestamp alone.
pub uninterp spec fn date_text(due: i64) -> Seq<char>;

/// Relies on chrono's `DateTime::<Utc>::from_timestamp` and the
/// `Display` of `DateTime<Utc>`: both compute from the timestamp
/// alone, so the rendered text is a function of `due`. A timestamp
/// chrono cannot represent (further than about 262,000 years from the
/// common era) renders as fixed placeholder text, also a function of
/// `due` alone.
#[verifier::external_body]
fn due_date_text(due: i64) -> (r: String)
    ensures
        r@ == date_text(due),
{
    match chrono::DateTime::<chrono::Utc>::from_timestamp(due, 0) {
        Some(d) => d.to_string(),
        None => "(out of range)".to_string(),
    }
}

/// How a listing is returned: structured records, or the rendered
/// HTML page. Structured is the default.
#[derive(Clone, Copy, PartialEq, Eq, Structural, Debug)]
pub enum ListingFormat {
    Structured,
    Html,
}

/// The format a request's `format` parameter selects: HTML exactly
/// when the parameter is present and reads `html`.
pub fn chosen_format(format: Option<&str>) -> (r: ListingFormat)
    ensures
        r == ListingFormat::Html <==> (format matches Some(f) && f@ == "html"@),
{
    match format {
        Some(f) => {
            let owned: String = f.to_owned();
            if owned == String::from_str("html") {
                ListingFormat::Html
            } else {
                ListingFormat::Structured
            }
        },
        None => ListingFormat::Structured,
    }
}

/// The id a record renders with: its own, or zero when it has none.
pub open spec fn shown_id(h: Homework) -> u64 {
    if h.id is Some {
        h.id->Some_0
    } else {
        0
    }
}

/// One listing row.
pub open spec fn row_text(h: Homework) -> Seq<char> {
    "<li>ID: "@ + dec_str(shown_id(h) as nat) + " | Name: "@ + h.name@ + " | Course Code: "@
        + h.course_code@ + " | Due Date: "@ + date_text(h.due_date) + "</li>"@
}

/// All rows, in record order.
pub open spec fn rows_text(s: Seq<Homework>) -> Seq<char>
    decreases s.len(),
{
    if s.len() == 0 {
        Seq::<char>::empty()
    } else {
        rows_text(s.drop_last()) + row_text(s.last())
    }
}

/// The whole page.
pub open spec fn page_text(s: Seq<Homework>) -> Seq<char> {
    "<html><body><ul>"@ + rows_text(s) + "</ul></body></html>"@
}

/// Render the records as the HTML page `page_text` describes.
pub fn render_html(records: &Vec<Homework>) -> (r: String)
    ensures
        r@ == page_text(records@),
{
    let mut out = String::from_str("<html><body><ul>");
    let n = records.len();
    let mut i: usize = 0;
    while i < n
        invariant
            n == records@.len(),
            out@ == "<html><body><ul>"@ + rows_text(records@.subrange(0, i as int)),
            i <= n,
        decreases n - i,
    {
        proof {
            assert(records@.subrange(0, i as int + 1).drop_last() =~= records@.subrange(
                0,
                i as int,
            ));
            assert(records@.subrange(0, i as int + 1).last() == records@[i as int]);
        }
        let ghost before = out@;
        let shown: u64 = match records[i].id {
            Some(x) => x,
            None => 0,
        };
        out.append("<li>ID: ");
        let id_text = crate::numbers::u64_to_string(shown);
        out.append(id_text.as_str());
        out.append(" | Name: ");
        out.append(records[i].name.as_str());
        out.append(" | Course Code: ");
        out.append(records[i].course_code.as_str());
        out.append(" | Due Date: ");
        let due = due_date_text(records[i].due_date);
        out.append(due.as_str());
        out.append("</li>");
        proof {
            assert(out@ =~= before + row_text(records@[i as int]));
            assert(out@ =~= "<html><body><ul>"@ + rows_text(records@.subrange(0, i as int + 1)));
        }
        i = i + 1;
    }
    proof {
        assert(records@.subrange(0, n as int) =~= records@);
    }
    out.append("</ul></body></html>");
    proof {
        assert(out@ =~= page_text(records@));
    }
    out
}

} // verus!

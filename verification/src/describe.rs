use vstd::prelude::*;
use vstd::string::StringExecFns;
use crate::chars::opt_str_view;
use crate::fingerprint::Entry;
use crate::rules::{apply_rules, apply_rules_model, rules_view};

verus! {

/// The markdown text that converting a piece of HTML yields.
pub uninterp spec fn markdown_of(html: Seq<char>) -> Seq<char>;

/// Relies on html2md::parse_html: a pure conversion from HTML to markdown
/// whose output depends on the input text alone.
#[verifier::external_body]
fn html_to_markdown(s: &str) -> (r: String)
    ensures
        r@ == markdown_of(s@),
{
    html2md::parse_html(s)
}

/// The body text a notification starts from: the entry's description,
/// "Unknown" when it has none, converted from HTML when the feed is marked
/// as HTML.
pub open spec fn base_description(desc: Option<Seq<char>>, feed_is_html: bool) -> Seq<char> {
    match desc {
        Option::Some(d) => if feed_is_html {
            markdown_of(d)
        } else {
            d
        },
        Option::None => if feed_is_html {
            markdown_of("Unknown"@)
        } else {
            "Unknown"@
        },
    }
}

/// Builds the notification body for one entry: falls back to "Unknown",
/// converts HTML to markdown when the feed is marked as HTML, and applies
/// every replacement rule in order.
pub fn build_description(
    desc: &Option<String>,
    feed_is_html: bool,
    rules: &Vec<(String, String)>,
) -> (out: String)
    ensures
        out@ == apply_rules_model(
            base_description(opt_str_view(*desc), feed_is_html),
            rules_view(rules@),
        ),
{
    let base: String = match desc {
        Option::Some(d) => {
            if feed_is_html {
                html_to_markdown(d.as_str())
            } else {
                d.clone()
            }
        },
        Option::None => {
            if feed_is_html {
                html_to_markdown("Unknown")
            } else {
                String::from_str("Unknown")
            }
        },
    };
    apply_rules(base.as_str(), rules)
}

/// The text of one notification, ready for delivery.
pub struct Notification {
    pub title: String,
    pub body: String,
    pub link: String,
}

/// Builds the notification for one entry. An absent title falls back to
/// "Unknown" and an absent link to a fixed default; the body is the
/// entry's description after conversion and substitution.
pub fn notification_for(
    e: &Entry,
    feed_is_html: bool,
    rules: &Vec<(String, String)>,
) -> (n: Notification)
    ensures
        n.title@ == match e.title {
            Option::Some(t) => t@,
            Option::None => "Unknown"@,
        },
        n.link@ == match e.link {
            Option::Some(l) => l@,
            Option::None => "https://youtu.be/dQw4w9WgXcQ"@,
        },
        n.body@ == apply_rules_model(
            base_description(opt_str_view(e.description), feed_is_html),
            rules_view(rules@),
        ),
{
    let title: String = match &e.title {
        Option::Some(t) => t.clone(),
        Option::None => String::from_str("Unknown"),
    };
    let link: String = match &e.link {
        Option::Some(l) => l.clone(),
        Option::None => String::from_str("https://youtu.be/dQw4w9WgXcQ"),
    };
    let body = build_description(&e.description, feed_is_html, rules);
    Notification { title, body, link }
}

} // verus!

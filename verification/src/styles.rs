//! Citation styles: a style file's id and title, read from its XML events.

use vstd::prelude::*;

use crate::static_render::{decode_html_entities, html_entities_decoded};
use crate::text::{chars_of, str_eq, string_from_range, trim, trim_str};
use crate::xml_events::{events_view, XEvent, XmlEvent};

verus! {

/// The local part of a tag name: what follows its prefix and `:`, the whole name without one.
pub open spec fn local_name(n: Seq<char>) -> Seq<char> {
    match crate::text::first_occ(n, seq![':']) {
        Some(i) => n.subrange(i + 1, n.len() as int),
        None => n,
    }
}

/// What the next text is taken as: nothing, the style's id, or its title.
pub enum Capture {
    Nothing,
    Id,
    Title,
}

/// The id, title and capture after reading events.
pub struct StyleScan {
    pub capture: Capture,
    pub id: Option<Seq<char>>,
    pub title: Option<Seq<char>>,
}

/// One event read: the first `id` and `title` elements capture the text that follows them;
/// any other tag, empty element or end tag stops capturing; text that is blank once trimmed
/// is passed over; other text ends the capture and, trimmed and decoded, fills the field
/// captured when it is still unset and the text is not blank.
pub open spec fn style_step(st: StyleScan, ev: XEvent) -> StyleScan {
    match ev {
        XEvent::Start(n, _) => {
            let l = local_name(n);
            let c = if l == "id"@ && st.id is None {
                Capture::Id
            } else if l == "title"@ && st.title is None {
                Capture::Title
            } else {
                Capture::Nothing
            };
            StyleScan { capture: c, ..st }
        },
        XEvent::Empty(_, _) => StyleScan { capture: Capture::Nothing, ..st },
        XEvent::End(_) => StyleScan { capture: Capture::Nothing, ..st },
        XEvent::Text(raw) => if trim(raw).len() == 0 {
            st
        } else {
            let t = trim(html_entities_decoded(trim(raw)));
            match st.capture {
                Capture::Id => StyleScan {
                    capture: Capture::Nothing,
                    id: if t.len() > 0 && st.id is None {
                        Some(t)
                    } else {
                        st.id
                    },
                    ..st
                },
                Capture::Title => StyleScan {
                    capture: Capture::Nothing,
                    title: if t.len() > 0 && st.title is None {
                        Some(t)
                    } else {
                        st.title
                    },
                    ..st
                },
                Capture::Nothing => st,
            }
        },
        _ => st,
    }
}

/// The scan after the first `n` events.
pub open spec fn style_scan(evs: Seq<XEvent>, n: int) -> StyleScan
    decreases n,
{
    if n <= 0 {
        StyleScan { capture: Capture::Nothing, id: None, title: None }
    } else {
        style_step(style_scan(evs, n - 1), evs[n - 1])
    }
}

/// A citation style file: its path, id, title (its file stem when it has none) and whether
/// it could be read.
#[derive(Debug)]
pub struct Style {
    pub path: String,
    pub id: Option<String>,
    pub title: String,
    pub valid: bool,
}

#[verifier::rlimit(60)]
fn local_name_exec(n: &str) -> (r: String)
    ensures
        r@ == local_name(n@),
{
    let v = chars_of(n);
    let colon = crate::text::lit(":");
    assert(v@ == n@);
    proof {
        reveal_strlit(":");
        assert(colon@ =~= seq![':']);
    }
    match crate::text::find_first(&v, &colon) {
        Some(i) => {
            proof {
                assert(crate::text::occurs_at(v@, colon@, i as int));
                assert(colon@.len() == 1);
                assert(i + 1 <= v@.len());
            }
            assert(i < v.len());
            let j: usize = i + 1;
            string_from_range(&v, j, v.len())
        },
        None => n.to_owned(),
    }
}

/// The style a file describes, from the events of its XML (or the reader's error) and its
/// path and file stem.
pub fn style_from(path: &str, stem: &str, events: Result<Vec<XmlEvent>, String>) -> (r: Style)
    ensures
        r.path@ == path@,
        match events {
            Err(_) => !r.valid && r.id is None && r.title@ == stem@,
            Ok(evs) => r.valid && {
                let sc = style_scan(events_view(evs@), evs@.len() as int);
                &&& match r.id {
                    Some(i) => sc.id == Some(i@),
                    None => sc.id is None,
                }
                &&& r.title@ == match sc.title {
                    Some(t) => t,
                    None => stem@,
                }
            },
        },
{
    let evs = match events {
        Err(_) => return Style { path: path.to_owned(), id: None, title: stem.to_owned(), valid: false },
        Ok(e) => e,
    };
    let ghost ev = events_view(evs@);
    let mut capture: u8 = 0;
    let mut id: Option<String> = None;
    let mut title: Option<String> = None;
    let mut i: usize = 0;
    while i < evs.len()
        invariant
            i <= evs@.len(),
            ev == events_view(evs@),
            ({
                let sc = style_scan(ev, i as int);
                &&& (capture == 0 <==> sc.capture is Nothing)
                &&& (capture == 1 <==> sc.capture is Id)
                &&& (capture == 2 <==> sc.capture is Title)
                &&& match id {
                    Some(x) => sc.id == Some(x@),
                    None => sc.id is None,
                }
                &&& match title {
                    Some(x) => sc.title == Some(x@),
                    None => sc.title is None,
                }
            }),
        decreases evs.len() - i,
    {
        proof {
            assert(ev[i as int] == crate::xml_events::event_view(evs@[i as int]));
        }
        match &evs[i] {
            XmlEvent::Start(n, _) => {
                let l = local_name_exec(n.as_str());
                capture = if str_eq(l.as_str(), "id") && id.is_none() {
                    1
                } else if str_eq(l.as_str(), "title") && title.is_none() {
                    2
                } else {
                    0
                };
            },
            XmlEvent::Empty(_, _) => {
                capture = 0;
            },
            XmlEvent::End(_) => {
                capture = 0;
            },
            XmlEvent::Text(raw) => {
                let rt = trim_str(raw.as_str());
                if !crate::text::str_is_empty(rt.as_str()) {
                    let d = decode_html_entities(rt.as_str());
                    let t = trim_str(d.as_str());
                    let blank = crate::text::str_is_empty(t.as_str());
                    if capture == 1 {
                        if !blank && id.is_none() {
                            id = Some(t);
                        }
                    } else if capture == 2 {
                        if !blank && title.is_none() {
                            title = Some(t);
                        }
                    }
                    capture = 0;
                }
            },
            _ => {},
        }
        i = i + 1;
    }
    let title = match title {
        Some(t) => t,
        None => stem.to_owned(),
    };
    Style { path: path.to_owned(), id, title, valid: true }
}

} // verus!

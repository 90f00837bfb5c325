//! The list of conversations, a page at a time: the page size, the cursor
//! that continues a listing, the label shown for a conversation, and the
//! page itself.
use vstd::prelude::*;
use crate::json::{Json, JsonValue, entries_view, items_view, lemma_entries_view, lemma_items_view, member, get_spec, member_index};
use crate::number_text::{decimal_text, i64_to_string};
use crate::recovery::{rfc3339_millis, parse_rfc3339_millis};
use crate::text::{chars_of, copy_string, to_owned_string};

verus! {

/// The most conversations a page holds.
pub const MAX_PAGE: i64 = 200;

/// The label of a conversation that has neither a label nor a start time.
pub const NEW_CONVERSATION: &'static str = "New Conversation";

/// How a start time is written in a conversation's default label.
pub const DATE_LABEL_FORMAT: &'static str = "Conversation %b %d, %Y %H:%M";

/// The page size asked for, 200 when none, kept between 1 and 200.
pub open spec fn page_size_spec(limit: Option<i64>) -> i64 {
    let n = match limit {
        Some(l) => l,
        None => MAX_PAGE,
    };
    if n < 1 {
        1
    } else if n > MAX_PAGE {
        MAX_PAGE
    } else {
        n
    }
}

/// The page size of a listing (see [`page_size_spec`]).
pub fn conversations_page_size(limit: Option<i64>) -> (r: i64)
    ensures
        r == page_size_spec(limit),
        1 <= r <= MAX_PAGE,
{
    let n = match limit {
        Some(l) => l,
        None => MAX_PAGE,
    };
    if n < 1 {
        1
    } else if n > MAX_PAGE {
        MAX_PAGE
    } else {
        n
    }
}

/// The cursor that continues a listing: after the given subject (and its
/// order, when known). A cursor without a subject is no cursor: the listing
/// starts at the first page.
pub fn page_cursor(after_tx: Option<i64>, after_subject: Option<String>) -> (r: Option<(Option<i64>, String)>)
    ensures
        match after_subject {
            Some(s) => r matches Some((tx, subj)) && tx == after_tx && subj@ == s@,
            None => r is None,
        },
{
    match after_subject {
        Some(s) => Some((after_tx, s)),
        None => None,
    }
}

/// `chrono::DateTime::from_timestamp(secs, 0)` written (in UTC) by the
/// pattern [`DATE_LABEL_FORMAT`]; none when the instant is out of range.
pub uninterp spec fn utc_formatted(secs: i64) -> Option<Seq<char>>;

/// `chrono::DateTime::<Utc>::from_timestamp(secs, 0)`, formatted by
/// `DateTime::format(pattern)`. Only [`DATE_LABEL_FORMAT`] is admitted: a
/// pattern that chrono cannot read makes `to_string` panic. The text is
/// stated by name only: a function of the instant.
#[verifier::external_body]
fn format_utc(secs: i64, pattern: &str) -> (r: Option<String>)
    requires
        pattern@ == DATE_LABEL_FORMAT@,
    ensures
        match r {
            Some(t) => utc_formatted(secs) == Some(t@),
            None => utc_formatted(secs) is None,
        },
{
    chrono::DateTime::from_timestamp(secs, 0).map(|dt| dt.format(pattern).to_string())
}

/// The label shown for a conversation: its own when not empty; else its
/// start time, when known, written by [`DATE_LABEL_FORMAT`]; else
/// [`NEW_CONVERSATION`].
pub open spec fn label_spec(label: Option<Seq<char>>, created_at: i64) -> Seq<char> {
    match label {
        Some(l) if l.len() > 0 => l,
        _ => if created_at > 0 {
            match utc_formatted((created_at / 1000) as i64) {
                Some(t) => t,
                None => NEW_CONVERSATION@,
            }
        } else {
            NEW_CONVERSATION@
        },
    }
}

/// The label shown for a conversation (see [`label_spec`]).
pub fn conversation_label(label: Option<String>, created_at: i64) -> (r: String)
    ensures
        r@ == label_spec(
            match label {
                Some(l) => Some(l@),
                None => None,
            },
            created_at,
        ),
{
    match label {
        Some(l) => {
            if chars_of(l.as_str()).len() > 0 {
                return l;
            }
        },
        None => {},
    }
    if created_at > 0 {
        match format_utc(created_at / 1000, DATE_LABEL_FORMAT) {
            Some(t) => t,
            None => to_owned_string(NEW_CONVERSATION),
        }
    } else {
        to_owned_string(NEW_CONVERSATION)
    }
}

/// A conversation of a page, with what the store knows of it: its order in
/// the listing, its label, its creation time (RFC 3339) and the
/// transaction that created it.
#[derive(Debug)]
pub struct ConversationRow {
    pub subject: String,
    pub order_tx: Option<i64>,
    pub label: Option<String>,
    pub created_at: Option<String>,
    pub creation_tx: Option<i64>,
}

/// When a conversation started, in milliseconds; zero when unknown.
pub open spec fn started_at(row: ConversationRow) -> i64 {
    match row.created_at {
        Some(t) => match rfc3339_millis(t@) {
            Some(ms) => ms,
            None => 0,
        },
        None => 0,
    }
}

pub open spec fn item_json(row: ConversationRow) -> Json {
    Json::Object(
        seq![
            (
                "creationTx"@,
                Json::Number(
                    decimal_text(
                        match row.creation_tx {
                            Some(t) => t as int,
                            None => 0,
                        },
                    ),
                ),
            ),
            ("iri"@, Json::Str(row.subject@)),
            (
                "label"@,
                Json::Str(
                    label_spec(
                        match row.label {
                            Some(l) => Some(l@),
                            None => None,
                        },
                        started_at(row),
                    ),
                ),
            ),
            ("startedAt"@, Json::Number(decimal_text(started_at(row) as int))),
        ],
    )
}

/// A page of conversations from the rows fetched (one more than the page
/// holds, to tell whether more follow): the first `page_size` rows as
/// items, whether more follow, the cursor after the last item when they
/// do, and the snapshot the listing reads.
pub open spec fn page_json(rows: Seq<ConversationRow>, page_size: i64, snapshot_tx: i64) -> Json {
    let has_more = rows.len() > page_size;
    let page = if has_more {
        rows.take(page_size as int)
    } else {
        rows
    };
    Json::Object(
        seq![
            ("has_more"@, Json::Bool(has_more && page.len() > 0)),
            ("items"@, Json::Array(page.map_values(|r: ConversationRow| item_json(r)))),
            (
                "next_cursor"@,
                if has_more && page.len() > 0 {
                    Json::Object(
                        seq![
                            ("after_subject"@, Json::Str(page.last().subject@)),
                            (
                                "order_tx"@,
                                match page.last().order_tx {
                                    Some(t) => Json::Number(decimal_text(t as int)),
                                    None => Json::Null,
                                },
                            ),
                        ],
                    )
                } else {
                    Json::Null
                },
            ),
            ("snapshot_tx"@, Json::Number(decimal_text(snapshot_tx as int))),
        ],
    )
}

fn item_of(row: &ConversationRow) -> (r: JsonValue)
    ensures
        r@ == item_json(*row),
{
    let started: i64 = match &row.created_at {
        Some(t) => match parse_rfc3339_millis(t.as_str()) {
            Some(ms) => ms,
            None => 0,
        },
        None => 0,
    };
    let label = match &row.label {
        Some(l) => Some(copy_string(l)),
        None => None,
    };
    let creation: i64 = match row.creation_tx {
        Some(t) => t,
        None => 0,
    };
    let entries = vec![
        member("creationTx", JsonValue::Number(i64_to_string(creation))),
        member("iri", JsonValue::Str(copy_string(&row.subject))),
        member("label", JsonValue::Str(conversation_label(label, started))),
        member("startedAt", JsonValue::Number(i64_to_string(started))),
    ];
    proof {
        lemma_entries_view(entries@);
    }
    assert(entries_view(entries@) =~= item_json(*row)->Object_0);
    JsonValue::Object(entries)
}

/// A page of conversations (see [`page_json`]).
pub fn conversation_page(rows: &Vec<ConversationRow>, page_size: i64, snapshot_tx: i64) -> (r: JsonValue)
    requires
        page_size >= 1,
    ensures
        r@ == page_json(rows@, page_size, snapshot_tx),
{
    let ghost rv = rows@;
    let has_more = (rows.len() as u64) > (page_size as u64);
    let n: usize = if has_more {
        page_size as usize
    } else {
        rows.len()
    };
    assert(has_more == (rv.len() > page_size));
    let ghost page = if has_more {
        rv.take(page_size as int)
    } else {
        rv
    };
    let mut items: Vec<JsonValue> = Vec::new();
    let mut i: usize = 0;
    while i < n
        invariant
            i <= n,
            n == page.len(),
            n <= rv.len(),
            rv == rows@,
            page_size >= 1,
            has_more == (rv.len() > page_size),
            has_more ==> n == page_size,
            page == (if has_more {
                rv.take(page_size as int)
            } else {
                rv
            }),
            items@.len() == i,
            forall|k: int| 0 <= k < i ==> #[trigger] crate::json::json_view(items@[k]) == item_json(page[k]),
        decreases n - i,
    {
        assert(page[i as int] == rv[i as int]);
        items.push(item_of(&rows[i]));
        i = i + 1;
    }
    proof {
        lemma_items_view(items@);
    }
    assert(items_view(items@) =~= page.map_values(|r: ConversationRow| item_json(r)));
    assert(n == page.len());
    let cursor = if has_more && n > 0 {
        let last = &rows[n - 1];
        assert(page.last() == rv[n - 1]);
        let tx = match last.order_tx {
            Some(t) => JsonValue::Number(i64_to_string(t)),
            None => JsonValue::Null,
        };
        let ce = vec![member("after_subject", JsonValue::Str(copy_string(&last.subject))), member("order_tx", tx)];
        proof {
            lemma_entries_view(ce@);
        }
        assert(entries_view(ce@) =~= seq![
            ("after_subject"@, Json::Str(page.last().subject@)),
            (
                "order_tx"@,
                match page.last().order_tx {
                    Some(t) => Json::Number(decimal_text(t as int)),
                    None => Json::Null,
                },
            ),
        ]);
        JsonValue::Object(ce)
    } else {
        JsonValue::Null
    };
    let entries = vec![
        member("has_more", JsonValue::Bool(has_more && n > 0)),
        member("items", JsonValue::Array(items)),
        member("next_cursor", cursor),
        member("snapshot_tx", JsonValue::Number(i64_to_string(snapshot_tx))),
    ];
    proof {
        lemma_entries_view(entries@);
    }
    assert(entries_view(entries@) =~= page_json(rv, page_size, snapshot_tx)->Object_0);
    JsonValue::Object(entries)
}

/// What a listed conversation shows, read from its item.
proof fn lemma_item_fields(row: ConversationRow)
    ensures
        get_spec(item_json(row), "iri"@) == Some(Json::Str(row.subject@)),
        get_spec(item_json(row), "startedAt"@) == Some(Json::Number(decimal_text(started_at(row) as int))),
        get_spec(item_json(row), "label"@) == Some(
            Json::Str(
                label_spec(
                    match row.label {
                        Some(l) => Some(l@),
                        None => None,
                    },
                    started_at(row),
                ),
            ),
        ),
{
    reveal_strlit("creationTx");
    reveal_strlit("iri");
    reveal_strlit("label");
    reveal_strlit("startedAt");
    let m = item_json(row)->Object_0;
    assert("creationTx"@ != "iri"@) by {
        assert("creationTx"@[0] != "iri"@[0]);
    }
    assert("creationTx"@ != "label"@) by {
        assert("creationTx"@[0] != "label"@[0]);
    }
    assert("creationTx"@ != "startedAt"@) by {
        assert("creationTx"@[0] != "startedAt"@[0]);
    }
    assert("iri"@ != "label"@) by {
        assert("iri"@[0] != "label"@[0]);
    }
    assert("iri"@ != "startedAt"@) by {
        assert("iri"@[0] != "startedAt"@[0]);
    }
    assert("label"@ != "startedAt"@) by {
        assert("label"@[0] != "startedAt"@[0]);
    }
    assert(m[0].0 == "creationTx"@);
    assert(m.drop_first()[0].0 == "iri"@);
    assert(member_index(m.drop_first(), "iri"@) == Some(0int));
    assert(m.drop_first().drop_first()[0].0 == "label"@);
    assert(m.drop_first().drop_first().drop_first()[0].0 == "startedAt"@);
    assert(member_index(m, "iri"@) == Some(1int));
    assert(member_index(m.drop_first().drop_first(), "label"@) == Some(0int));
    assert(member_index(m.drop_first(), "label"@) == Some(1int));
    assert(member_index(m, "label"@) == Some(2int));
    assert(member_index(m.drop_first().drop_first().drop_first(), "startedAt"@) == Some(0int));
    assert(member_index(m.drop_first().drop_first(), "startedAt"@) == Some(1int));
    assert(member_index(m.drop_first(), "startedAt"@) == Some(2int));
    assert(member_index(m, "startedAt"@) == Some(3int));
}

/// What an item of the list shows for a conversation: its IRI, its start
/// time in milliseconds, and a label: its own label when it has a non-empty
/// one; otherwise its start time written by [`DATE_LABEL_FORMAT`] when it
/// has a start time that formats; otherwise [`NEW_CONVERSATION`].
pub open spec fn item_shows(item: Json, row: ConversationRow) -> bool {
    let t = started_at(row);
    let own = match row.label {
        Some(l) => l@.len() > 0,
        None => false,
    };
    let formatted = utc_formatted((t / 1000) as i64);
    &&& get_spec(item, "iri"@) == Some(Json::Str(row.subject@))
    &&& get_spec(item, "startedAt"@) == Some(Json::Number(decimal_text(t as int)))
    &&& own ==> get_spec(item, "label"@) == Some(Json::Str(row.label->0@))
    &&& (!own && t > 0 && formatted is Some) ==> get_spec(item, "label"@) == Some(Json::Str(formatted->0))
    &&& (!own && (t <= 0 || formatted is None)) ==> get_spec(item, "label"@) == Some(Json::Str(NEW_CONVERSATION@))
}

/// Law: each item of a page of conversations shows its conversation (see
/// [`item_shows`]): an unlabelled conversation with a start time that
/// formats is named after it. A page holds the first `page_size` rows, or
/// all of them when there are fewer.
pub proof fn law_page_items_show_their_conversations(rows: Seq<ConversationRow>, page_size: i64, snapshot_tx: i64)
    requires
        page_size >= 1,
    ensures
        ({
            let page = page_json(rows, page_size, snapshot_tx);
            match get_spec(page, "items"@) {
                Some(Json::Array(items)) => {
                    &&& items.len() == (if rows.len() > page_size { page_size as int } else { rows.len() as int })
                    &&& forall|i: int| 0 <= i < items.len() ==> item_shows(#[trigger] items[i], rows[i])
                },
                _ => false,
            }
        }),
{
    reveal_strlit("has_more");
    reveal_strlit("items");
    let p = page_json(rows, page_size, snapshot_tx)->Object_0;
    assert("has_more"@ != "items"@) by {
        assert("has_more"@[0] != "items"@[0]);
    }
    assert(p.drop_first()[0].0 == "items"@);
    assert(member_index(p.drop_first(), "items"@) == Some(0int));
    assert(member_index(p, "items"@) == Some(1int));
    let has_more = rows.len() > page_size;
    let pg = if has_more {
        rows.take(page_size as int)
    } else {
        rows
    };
    let items = pg.map_values(|r: ConversationRow| item_json(r));
    assert(get_spec(page_json(rows, page_size, snapshot_tx), "items"@) == Some(Json::Array(items)));
    assert forall|i: int| 0 <= i < items.len() implies item_shows(#[trigger] items[i], rows[i]) by {
        assert(pg[i] == rows[i]);
        assert(items[i] == item_json(rows[i]));
        lemma_item_fields(rows[i]);
    }
}

} // verus!

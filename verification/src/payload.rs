//! What is sent for every creation and every patch, field by field.

use crate::categories::CategoryRequest;
use crate::clash::ConflictList;
use crate::draw::{Panel, PanelView};
use crate::entities::{opt_text, texts};
use crate::import::{
    InstitutionDraft, JudgeDraft, SpeakerDraft, TeamDraft, VenueDraft, VenueGroup,
};
use crate::json::{
    entries_view, lemma_list_view, list_of_texts, merge, merged, object, optional_text,
    put_optional, single, text_list, text_or_null, with_optional, Json, JsonView,
};
use vstd::prelude::*;

verus! {

/// What creates an institution.
pub open spec fn institution_json(d: InstitutionDraft) -> JsonView {
    JsonView::Object(
        seq![
            ("region"@, text_or_null(opt_text(d.region))),
            ("name"@, JsonView::Text(d.name@)),
            ("code"@, JsonView::Text(d.code@)),
        ],
    )
}

/// What is sent to create an institution.
pub fn institution_payload(d: &InstitutionDraft) -> (r: Json)
    ensures
        r.view() == institution_json(*d),
{
    let mut entries: Vec<(String, Json)> = Vec::new();
    entries.push(("region".to_owned(), optional_text(&d.region)));
    entries.push(("name".to_owned(), Json::Text(d.name.clone())));
    entries.push(("code".to_owned(), Json::Text(d.code.clone())));
    assert(entries_view(entries@) =~= institution_json(*d)->Object_0);
    object(entries)
}

/// What creates a venue: it has no categories yet.
pub open spec fn venue_json(d: VenueDraft) -> JsonView {
    JsonView::Object(
        seq![
            ("categories"@, JsonView::List(Seq::empty())),
            ("name"@, JsonView::Text(d.name@)),
            ("priority"@, JsonView::Int(d.priority)),
        ],
    )
}

/// The empty list.
pub fn empty_list() -> (r: Json)
    ensures
        r.view() == JsonView::List(Seq::empty()),
{
    let items: Vec<Json> = Vec::new();
    proof {
        lemma_list_view(items);
        assert(crate::json::items_view(items@) =~= Seq::<JsonView>::empty());
    }
    Json::List(items)
}

/// What is sent to create a venue.
pub fn venue_payload(d: &VenueDraft) -> (r: Json)
    ensures
        r.view() == venue_json(*d),
{
    let mut entries: Vec<(String, Json)> = Vec::new();
    entries.push(("categories".to_owned(), empty_list()));
    entries.push(("name".to_owned(), Json::Text(d.name.clone())));
    entries.push(("priority".to_owned(), Json::Int(d.priority)));
    assert(entries_view(entries@) =~= venue_json(*d)->Object_0);
    object(entries)
}

/// What creates a venue category: its venues, its name, and that it is shown
/// in front of the names of its venues.
pub open spec fn venue_category_json(name: Seq<char>, venues: Seq<Seq<char>>) -> JsonView {
    JsonView::Object(
        seq![
            ("venues"@, text_list(venues)),
            ("name"@, JsonView::Text(name)),
            ("display_in_venue_name"@, JsonView::Text("P"@)),
        ],
    )
}

/// What is sent to create a venue category.
pub fn venue_category_payload(group: &VenueGroup) -> (r: Json)
    ensures
        r.view() == venue_category_json(group.name@, texts(group.venues@)),
{
    let mut entries: Vec<(String, Json)> = Vec::new();
    entries.push(("venues".to_owned(), list_of_texts(&group.venues)));
    entries.push(("name".to_owned(), Json::Text(group.name.clone())));
    entries.push(
        ("display_in_venue_name".to_owned(), Json::Text(crate::import::venue_category_display())),
    );
    assert(entries_view(entries@) =~= venue_category_json(
        group.name@,
        texts(group.venues@),
    )->Object_0);
    object(entries)
}

/// What creates a judge. The base score is sent only where there is one.
pub open spec fn judge_json(d: JudgeDraft) -> JsonView {
    let base = JsonView::Object(
        seq![
            ("name"@, JsonView::Text(d.name@)),
            ("institution"@, text_or_null(opt_text(d.institution))),
            ("institution_conflicts"@, text_list(texts(d.institution_conflicts@))),
            ("email"@, text_or_null(opt_text(d.email))),
            ("team_conflicts"@, JsonView::List(Seq::empty())),
            ("adjudicator_conflicts"@, JsonView::List(Seq::empty())),
            ("independent"@, JsonView::Bool(d.independent)),
            ("adj_core"@, JsonView::Bool(d.adj_core)),
        ],
    );
    match d.base_score {
        Some(score) => merged(
            base,
            JsonView::Object(seq![("base_score"@, JsonView::Decimal(score@))]),
        ),
        None => base,
    }
}

/// What is sent to create a judge.
pub fn judge_payload(d: &JudgeDraft) -> (r: Json)
    ensures
        r.view() == judge_json(*d),
{
    let mut entries: Vec<(String, Json)> = Vec::new();
    entries.push(("name".to_owned(), Json::Text(d.name.clone())));
    entries.push(("institution".to_owned(), optional_text(&d.institution)));
    entries.push(("institution_conflicts".to_owned(), list_of_texts(&d.institution_conflicts)));
    entries.push(("email".to_owned(), optional_text(&d.email)));
    entries.push(("team_conflicts".to_owned(), empty_list()));
    entries.push(("adjudicator_conflicts".to_owned(), empty_list()));
    entries.push(("independent".to_owned(), Json::Bool(d.independent)));
    entries.push(("adj_core".to_owned(), Json::Bool(d.adj_core)));
    assert(entries_view(entries@) =~= seq![
        ("name"@, JsonView::Text(d.name@)),
        ("institution"@, text_or_null(opt_text(d.institution))),
        ("institution_conflicts"@, text_list(texts(d.institution_conflicts@))),
        ("email"@, text_or_null(opt_text(d.email))),
        ("team_conflicts"@, JsonView::List(Seq::empty())),
        ("adjudicator_conflicts"@, JsonView::List(Seq::empty())),
        ("independent"@, JsonView::Bool(d.independent)),
        ("adj_core"@, JsonView::Bool(d.adj_core)),
    ]);
    let mut payload = object(entries);
    match &d.base_score {
        Some(score) => {
            let top = single("base_score", Json::Decimal(score.clone()));
            merge(&mut payload, &top);
        },
        None => {},
    }
    payload
}

/// The judge whose availability is set: the list of its URL alone.
pub fn availability_payload(judge_url: &str) -> (r: Json)
    ensures
        r.view() == JsonView::List(seq![JsonView::Text(judge_url@)]),
{
    let mut items: Vec<Json> = Vec::new();
    items.push(Json::Text(judge_url.to_owned()));
    proof {
        lemma_list_view(items);
        assert(crate::json::items_view(items@) =~= seq![JsonView::Text(judge_url@)]);
    }
    Json::List(items)
}

/// A whole number, or nothing where there is none.
pub open spec fn count_or_null(o: Option<u64>) -> Option<JsonView> {
    match o {
        Some(n) => Some(JsonView::Count(n)),
        None => None,
    }
}

/// What creates a category. The break size, the flag and the priority are
/// sent only where the request has them.
pub open spec fn category_json(r: CategoryRequest) -> JsonView {
    let base = JsonView::Object(
        seq![
            ("name"@, JsonView::Text(r.name@)),
            ("slug"@, JsonView::Text(r.slug@)),
            ("seq"@, JsonView::Count(r.seq)),
        ],
    );
    let sized = match r.break_size {
        Some(n) => merged(base, JsonView::Object(seq![("break_size"@, JsonView::Count(n))])),
        None => base,
    };
    let flagged = match r.is_general {
        Some(b) => merged(sized, JsonView::Object(seq![("is_general"@, JsonView::Bool(b))])),
        None => sized,
    };
    match r.priority {
        Some(n) => merged(flagged, JsonView::Object(seq![("priority"@, JsonView::Count(n))])),
        None => flagged,
    }
}

/// What is sent to create a category.
pub fn category_payload(r: &CategoryRequest) -> (p: Json)
    ensures
        p.view() == category_json(*r),
{
    let mut entries: Vec<(String, Json)> = Vec::new();
    entries.push(("name".to_owned(), Json::Text(r.name.clone())));
    entries.push(("slug".to_owned(), Json::Text(r.slug.clone())));
    entries.push(("seq".to_owned(), Json::Count(r.seq)));
    assert(entries_view(entries@) =~= seq![
        ("name"@, JsonView::Text(r.name@)),
        ("slug"@, JsonView::Text(r.slug@)),
        ("seq"@, JsonView::Count(r.seq)),
    ]);
    let mut payload = object(entries);
    match r.break_size {
        Some(n) => {
            let top = single("break_size", Json::Count(n));
            merge(&mut payload, &top);
        },
        None => {},
    }
    match r.is_general {
        Some(b) => {
            let top = single("is_general", Json::Bool(b));
            merge(&mut payload, &top);
        },
        None => {},
    }
    match r.priority {
        Some(n) => {
            let top = single("priority", Json::Count(n));
            merge(&mut payload, &top);
        },
        None => {},
    }
    payload
}

/// A seed, or nothing where there is none.
pub open spec fn seed_json(seed: Option<u32>) -> JsonView {
    match seed {
        Some(n) => JsonView::Int(n as i64),
        None => JsonView::Null,
    }
}

/// What creates a team. The code name and the short name are sent only where
/// there is one. Speakers are not sent with their team.
pub open spec fn team_json(d: TeamDraft) -> JsonView {
    let base = JsonView::Object(
        seq![
            ("institution"@, text_or_null(opt_text(d.institution))),
            ("reference"@, JsonView::Text(d.reference@)),
            ("seed"@, seed_json(d.seed)),
            ("emoji"@, text_or_null(opt_text(d.emoji))),
            ("use_institution_prefix"@, JsonView::Bool(d.use_institution_prefix)),
            ("break_categories"@, text_list(texts(d.break_categories@))),
        ],
    );
    with_optional(
        with_optional(base, "code_name"@, opt_text(d.code_name)),
        "short_reference"@,
        opt_text(d.short_reference),
    )
}

/// What is sent to create a team.
pub fn team_payload(d: &TeamDraft) -> (r: Json)
    ensures
        r.view() == team_json(*d),
{
    let seed = match d.seed {
        Some(n) => Json::Int(n as i64),
        None => Json::Null,
    };
    let mut entries: Vec<(String, Json)> = Vec::new();
    entries.push(("institution".to_owned(), optional_text(&d.institution)));
    entries.push(("reference".to_owned(), Json::Text(d.reference.clone())));
    entries.push(("seed".to_owned(), seed));
    entries.push(("emoji".to_owned(), optional_text(&d.emoji)));
    entries.push(("use_institution_prefix".to_owned(), Json::Bool(d.use_institution_prefix)));
    entries.push(("break_categories".to_owned(), list_of_texts(&d.break_categories)));
    assert(entries_view(entries@) =~= seq![
        ("institution"@, text_or_null(opt_text(d.institution))),
        ("reference"@, JsonView::Text(d.reference@)),
        ("seed"@, seed_json(d.seed)),
        ("emoji"@, text_or_null(opt_text(d.emoji))),
        ("use_institution_prefix"@, JsonView::Bool(d.use_institution_prefix)),
        ("break_categories"@, text_list(texts(d.break_categories@))),
    ]);
    let mut payload = object(entries);
    put_optional(&mut payload, "code_name", &d.code_name);
    put_optional(&mut payload, "short_reference", &d.short_reference);
    payload
}

/// What creates a speaker. The code name, the phone number, the gender and
/// the pronoun are sent only where there is one.
pub open spec fn speaker_json(d: SpeakerDraft) -> JsonView {
    let base = JsonView::Object(
        seq![
            ("name"@, JsonView::Text(d.name@)),
            ("team"@, JsonView::Text(d.team@)),
            ("categories"@, text_list(texts(d.categories@))),
            ("email"@, text_or_null(opt_text(d.email))),
            ("anonymous"@, JsonView::Bool(d.anonymous)),
        ],
    );
    with_optional(
        with_optional(
            with_optional(
                with_optional(base, "code_name"@, opt_text(d.code_name)),
                "phone"@,
                opt_text(d.phone),
            ),
            "gender"@,
            opt_text(d.gender),
        ),
        "pronoun"@,
        opt_text(d.pronoun),
    )
}

/// What is sent to create a speaker.
pub fn speaker_payload(d: &SpeakerDraft) -> (r: Json)
    ensures
        r.view() == speaker_json(*d),
{
    let mut entries: Vec<(String, Json)> = Vec::new();
    entries.push(("name".to_owned(), Json::Text(d.name.clone())));
    entries.push(("team".to_owned(), Json::Text(d.team.clone())));
    entries.push(("categories".to_owned(), list_of_texts(&d.categories)));
    entries.push(("email".to_owned(), optional_text(&d.email)));
    entries.push(("anonymous".to_owned(), Json::Bool(d.anonymous)));
    assert(entries_view(entries@) =~= seq![
        ("name"@, JsonView::Text(d.name@)),
        ("team"@, JsonView::Text(d.team@)),
        ("categories"@, text_list(texts(d.categories@))),
        ("email"@, text_or_null(opt_text(d.email))),
        ("anonymous"@, JsonView::Bool(d.anonymous)),
    ]);
    let mut payload = object(entries);
    put_optional(&mut payload, "code_name", &d.code_name);
    put_optional(&mut payload, "phone", &d.phone);
    put_optional(&mut payload, "gender", &d.gender);
    put_optional(&mut payload, "pronoun", &d.pronoun);
    payload
}

/// The name of a conflict list on the wire.
pub open spec fn list_key(list: ConflictList) -> Seq<char> {
    match list {
        ConflictList::Institutions => "institution_conflicts"@,
        ConflictList::Adjudicators => "adjudicator_conflicts"@,
        ConflictList::Teams => "team_conflicts"@,
    }
}

/// What is sent to set a conflict list of a record.
pub fn conflicts_payload(list: ConflictList, conflicts: &Vec<String>) -> (r: Json)
    ensures
        r.view() == JsonView::Object(seq![(list_key(list), text_list(texts(conflicts@)))]),
{
    let key = match list {
        ConflictList::Institutions => "institution_conflicts",
        ConflictList::Adjudicators => "adjudicator_conflicts",
        ConflictList::Teams => "team_conflicts",
    };
    single(key, list_of_texts(conflicts))
}

/// What is sent to set the break categories of a team.
pub fn break_categories_payload(urls: &Vec<String>) -> (r: Json)
    ensures
        r.view() == JsonView::Object(seq![("break_categories"@, text_list(texts(urls@)))]),
{
    single("break_categories", list_of_texts(urls))
}

/// What is sent to set the external URL of a room.
pub fn external_url_payload(url: &str) -> (r: Json)
    ensures
        r.view() == JsonView::Object(seq![("external_url"@, JsonView::Text(url@))]),
{
    single("external_url", Json::Text(url.to_owned()))
}

/// What sets the panel of a pairing.
pub open spec fn panel_json(panel: PanelView) -> JsonView {
    JsonView::Object(
        seq![
            (
                "adjudicators"@,
                JsonView::Object(
                    seq![
                        ("chair"@, text_or_null(panel.chair)),
                        ("panellists"@, text_list(panel.panellists)),
                        ("trainees"@, text_list(panel.trainees)),
                    ],
                ),
            ),
        ],
    )
}

/// What is sent to set the panel of a pairing.
pub fn patch_adjudicators_in_pairing(panel: &Panel) -> (r: Json)
    ensures
        r.view() == panel_json(panel@),
{
    let mut entries: Vec<(String, Json)> = Vec::new();
    entries.push(("chair".to_owned(), optional_text(&panel.chair)));
    entries.push(("panellists".to_owned(), list_of_texts(&panel.panellists)));
    entries.push(("trainees".to_owned(), list_of_texts(&panel.trainees)));
    assert(entries_view(entries@) =~= seq![
        ("chair"@, text_or_null(panel@.chair)),
        ("panellists"@, text_list(panel@.panellists)),
        ("trainees"@, text_list(panel@.trainees)),
    ]);
    single("adjudicators", object(entries))
}

} // verus!

//! The name and the logo of the brand, as the user interface shows them.

use vstd::prelude::*;
use crate::api::{fetch, fetch_view, Method, Request, RequestView};
use crate::json::{Json, JsonView};
use crate::settings::{
    setting, settings_after, write_text, Writes, WritesView,
    BRANDING_TS_KEY, BRAND_LOGO_PATH_KEY, BRAND_NAME_KEY,
};
use crate::text::{
    begins_with, chars_of, decimal, decimal_text, glue, law_decimal_parses_back,
    law_numerals_are_read, law_other_texts_are_no_numerals, parse, parsed, starts_with,
};

verus! {

/// The name of the file that holds the logo.
pub const LOGO_FILE: &'static str = "branding.png";

/// After how many seconds fetching the logo is given up.
pub const LOGO_SECS: u64 = 15;

/// The logo that is kept: when it was changed, where it is, and whether a file is there.
#[derive(Debug)]
pub struct KeptLogo {
    pub updated_at: String,
    pub path: String,
    pub exists: bool,
}

/// The mathematical value of a `KeptLogo`.
pub struct KeptLogoView {
    pub updated_at: Seq<char>,
    pub path: Seq<char>,
    pub exists: bool,
}

impl DeepView for KeptLogo {
    type V = KeptLogoView;

    open spec fn deep_view(&self) -> KeptLogoView {
        KeptLogoView { updated_at: self.updated_at@, path: self.path@, exists: self.exists }
    }
}

/// What is done for a reply: what is written at once, and the logo that is fetched, with when it was
/// changed.
#[derive(Debug, PartialEq)]
pub struct BrandingPlan {
    pub writes: Writes,
    pub logo: Option<(Request, u64)>,
}

/// The mathematical value of a `BrandingPlan`.
#[verifier::ext_equal]
pub struct BrandingView {
    pub writes: WritesView,
    pub logo: Option<(RequestView, u64)>,
}

impl DeepView for BrandingPlan {
    type V = BrandingView;

    open spec fn deep_view(&self) -> BrandingView {
        BrandingView {
            writes: self.writes.deep_view(),
            logo: match self.logo {
                Some((request, updated_at)) => Some((request.deep_view(), updated_at)),
                None => None,
            },
        }
    }
}

/// When the logo was changed, as the reply says it: 0 where it does not.
pub open spec fn logo_updated_at(reply: JsonView) -> u64 {
    match reply.unsigned_field("logoUpdatedAt"@) {
        Some(n) => n,
        None => 0,
    }
}

/// The reply has a logo.
pub open spec fn has_logo(reply: JsonView) -> bool {
    reply.text_field("logoUrl"@).len() > 0 && logo_updated_at(reply) != 0
}

/// When the logo that is kept was changed: 0 where the text is no number.
pub open spec fn kept_since(updated_at: Seq<char>) -> int {
    match parsed(updated_at, 10, u64::MAX as int) {
        Some(n) => n,
        None => 0,
    }
}

/// The logo that is kept is the one that the reply names.
pub open spec fn is_kept(reply: JsonView, kept: KeptLogoView) -> bool {
    kept_since(kept.updated_at) == logo_updated_at(reply) && kept.path.len() > 0 && kept.exists
}

/// Where a logo lies: an address as it stands, a path at the panel.
pub open spec fn logo_address(base: Seq<char>, url: Seq<char>) -> Seq<char> {
    if begins_with(url, "http"@) {
        url
    } else {
        base + url
    }
}

/// What is done for a reply. The name is always written. Without a logo its path is cleared; one
/// that is not kept is fetched.
pub open spec fn branding_plan(base: Seq<char>, reply: JsonView, kept: KeptLogoView) -> BrandingView {
    let name = (BRAND_NAME_KEY@, reply.text_field("brandName"@));
    if !has_logo(reply) {
        BrandingView {
            writes: seq![
                name,
                (BRAND_LOGO_PATH_KEY@, Seq::empty()),
                (BRANDING_TS_KEY@, "0"@),
            ],
            logo: None,
        }
    } else if is_kept(reply, kept) {
        BrandingView { writes: seq![name], logo: None }
    } else {
        BrandingView {
            writes: seq![name],
            logo: Some(
                (
                    fetch_view(logo_address(base, reply.text_field("logoUrl"@)), LOGO_SECS),
                    logo_updated_at(reply),
                ),
            ),
        }
    }
}

/// Decides what is done for a reply.
pub fn sync_branding(base: &str, reply: &Json, kept: &KeptLogo) -> (plan: BrandingPlan)
    ensures
        plan.deep_view() == branding_plan(base@, reply@, kept.deep_view()),
{
    let ghost want = branding_plan(base@, reply@, kept.deep_view());
    let name = reply.text_field("brandName");
    let url = reply.text_field("logoUrl");
    let updated_at: u64 = match reply.unsigned_field("logoUpdatedAt") {
        Some(n) => n,
        None => 0,
    };
    let mut writes: Writes = Vec::new();
    write_text(&mut writes, BRAND_NAME_KEY, name.as_str());
    if url.as_str().is_empty() || updated_at == 0 {
        let empty = String::new();
        write_text(&mut writes, BRAND_LOGO_PATH_KEY, empty.as_str());
        write_text(&mut writes, BRANDING_TS_KEY, "0");
        assert(writes.deep_view() =~= want.writes);
        return BrandingPlan { writes, logo: None };
    }
    assert(writes.deep_view() =~= want.writes);
    let since: u64 = match parse(chars_of(kept.updated_at.as_str()).as_slice(), 10, u64::MAX) {
        Some(n) => n,
        None => 0,
    };
    if since == updated_at && !kept.path.as_str().is_empty() && kept.exists {
        return BrandingPlan { writes, logo: None };
    }
    let http = chars_of("http");
    let address = if starts_with(chars_of(url.as_str()).as_slice(), http.as_slice()) {
        url
    } else {
        glue(base, url.as_str())
    };
    BrandingPlan { writes, logo: Some((fetch(address, LOGO_SECS), updated_at)) }
}

/// What is written once the logo is saved at this path.
pub open spec fn logo_writes(path: Seq<char>, updated_at: u64) -> WritesView {
    seq![
        (BRAND_LOGO_PATH_KEY@, path),
        (BRANDING_TS_KEY@, decimal(updated_at as nat)),
    ]
}

/// What is written once the logo is saved at this path.
pub fn logo_saved(path: &str, updated_at: u64) -> (writes: Writes)
    ensures
        writes.deep_view() == logo_writes(path@, updated_at),
{
    let mut writes: Writes = Vec::new();
    write_text(&mut writes, BRAND_LOGO_PATH_KEY, path);
    write_text(&mut writes, BRANDING_TS_KEY, decimal_text(updated_at).as_str());
    assert(writes.deep_view() =~= logo_writes(path@, updated_at));
    writes
}

/// A logo that was saved is not fetched again while its file is there and the panel has no newer
/// one.
pub proof fn law_kept_logo_is_not_fetched_again(
    settings: Map<Seq<char>, Seq<char>>,
    base: Seq<char>,
    reply: JsonView,
    path: Seq<char>,
    kept: KeptLogoView,
)
    requires
        path.len() > 0,
        kept.exists,
        ({
            let after = settings_after(settings, logo_writes(path, logo_updated_at(reply)));
            &&& kept.updated_at == setting(after, BRANDING_TS_KEY@)
            &&& kept.path == setting(after, BRAND_LOGO_PATH_KEY@)
        }),
    ensures
        branding_plan(base, reply, kept).logo is None,
{
    let writes = logo_writes(path, logo_updated_at(reply));
    reveal_with_fuel(settings_after, 3);
    assert(writes.drop_last().drop_last() =~= Seq::empty());
    reveal_strlit("cd_logo_updated_at");
    reveal_strlit("cd_brand_logo_path");
    assert("cd_logo_updated_at"@[3] != "cd_brand_logo_path"@[3]);
    law_decimal_parses_back(logo_updated_at(reply) as nat, u64::MAX as int);
}

/// A newer logo is fetched, whatever is kept.
pub proof fn law_newer_logo_is_fetched(base: Seq<char>, reply: JsonView, kept: KeptLogoView)
    requires
        has_logo(reply),
        kept_since(kept.updated_at) != logo_updated_at(reply),
    ensures
        branding_plan(base, reply, kept).logo is Some,
{
}

/// Whatever the reply, the name of the brand is written first. Without a logo its path and its time
/// are cleared. A logo that is kept is left alone, and any other is fetched: where its address is a
/// whole one from there, and else from the panel.
pub proof fn law_brand_is_kept_up_to_date(
    base: Seq<char>,
    reply: JsonView,
    name: Seq<char>,
    url: Seq<char>,
    updated_at: u64,
    kept: KeptLogoView,
    zeros: nat,
    kept_at: nat,
)
    requires
        reply.field("brandName"@) == Some(JsonView::Text(name)),
        reply.field("logoUrl"@) == Some(JsonView::Text(url)),
        reply.field("logoUpdatedAt"@) == Some(JsonView::Unsigned(updated_at)),
        kept.updated_at == Seq::new(zeros, |i: int| '0') + decimal(kept_at),
    ensures
        ({
            let plan = branding_plan(base, reply, kept);
            if url.len() == 0 || updated_at == 0 {
                plan == (BrandingView {
                    writes: seq![
                        ("cd_brand_name"@, name),
                        ("cd_brand_logo_path"@, Seq::empty()),
                        ("cd_logo_updated_at"@, "0"@),
                    ],
                    logo: None,
                })
            } else {
                &&& plan.writes == seq![("cd_brand_name"@, name)]
                &&& plan.logo is None <==> (kept_at == updated_at && kept.path.len() > 0
                    && kept.exists)
                &&& plan.logo matches Some((request, at)) ==> at == updated_at && request
                    == (RequestView {
                    method: Method::Get,
                    url: if url.len() >= 4 && url[0] == 'h' && url[1] == 't' && url[2] == 't'
                        && url[3] == 'p' {
                        url
                    } else {
                        base + url
                    },
                    header: None,
                    body: None,
                    timeout_secs: 15,
                })
            }
        }),
{
    law_numerals_are_read(kept_at, zeros, u64::MAX as int);
    reveal_strlit("http");
    if begins_with(url, "http"@) {
        let front = url.subrange(0, 4);
        assert(front[0] == 'h' && front[1] == 't' && front[2] == 't' && front[3] == 'p');
    }
    if url.len() >= 4 && url[0] == 'h' && url[1] == 't' && url[2] == 't' && url[3] == 'p' {
        assert(url.subrange(0, 4) =~= "http"@);
    }
}

/// A field that the reply does not have counts as empty: no name, or no logo.
pub proof fn law_missing_fields_count_as_empty(base: Seq<char>, reply: JsonView, kept: KeptLogoView)
    ensures
        reply.field("logoUrl"@) is None || reply.field("logoUpdatedAt"@) is None ==> branding_plan(
            base,
            reply,
            kept,
        ).logo is None && branding_plan(base, reply, kept).writes.len() == 3,
        reply.field("brandName"@) is None ==> branding_plan(base, reply, kept).writes[0].1
            == Seq::<char>::empty(),
        kept.updated_at.len() == 0 && has_logo(reply) ==> branding_plan(base, reply, kept).logo
            is Some,
{
    if kept.updated_at.len() == 0 {
        law_other_texts_are_no_numerals(kept.updated_at, 0, u64::MAX as int);
    }
}

/// Where a logo was saved and when it was changed are kept as they are.
pub proof fn law_saved_logo_is_remembered(path: Seq<char>, updated_at: u64)
    ensures
        logo_writes(path, updated_at) == seq![
            ("cd_brand_logo_path"@, path),
            ("cd_logo_updated_at"@, decimal(updated_at as nat)),
        ],
{
}

} // verus!

use conectdesk_agent::api::fetch;
use conectdesk_agent::branding::{logo_saved, sync_branding, BrandingPlan, KeptLogo, LOGO_FILE};
use conectdesk_agent::json::Json;
use conectdesk_agent::settings::Writes;

fn json(text: &str) -> Json {
    Json::parse(text.as_bytes()).unwrap()
}

fn writes(list: &[(&str, &str)]) -> Writes {
    list.iter().map(|(k, v)| (k.to_string(), v.to_string())).collect()
}

fn kept(updated_at: &str, path: &str, exists: bool) -> KeptLogo {
    KeptLogo { updated_at: updated_at.to_string(), path: path.to_string(), exists }
}

const LOGO: &str = "{\"brandName\":\"Posto\",\"logoUrl\":\"/logo.png\",\"logoUpdatedAt\":17}";

fn name_only() -> BrandingPlan {
    BrandingPlan { writes: writes(&[("cd_brand_name", "Posto")]), logo: None }
}

fn fetched(url: &str) -> BrandingPlan {
    BrandingPlan {
        writes: writes(&[("cd_brand_name", "Posto")]),
        logo: Some((fetch(url.to_string(), 15), 17)),
    }
}

#[test]
fn new_logo_is_fetched() {
    let reply = json(LOGO);
    assert_eq!(sync_branding("https://p", &reply, &kept("", "", false)), fetched("https://p/logo.png"));
    assert_eq!(sync_branding("https://p", &reply, &kept("16", "l.png", true)), fetched("https://p/logo.png"));
    assert_eq!(sync_branding("https://p", &reply, &kept("17", "", true)), fetched("https://p/logo.png"));
    assert_eq!(sync_branding("https://p", &reply, &kept("17", "l.png", false)), fetched("https://p/logo.png"));
    assert_eq!(sync_branding("https://p", &reply, &kept("x17", "l.png", true)), fetched("https://p/logo.png"));
}

#[test]
fn kept_logo_is_not_fetched() {
    assert_eq!(sync_branding("https://p", &json(LOGO), &kept("17", "l.png", true)), name_only());
    assert_eq!(sync_branding("https://p", &json(LOGO), &kept("+017", "l.png", true)), name_only());
}

#[test]
fn logo_elsewhere() {
    let reply = json("{\"brandName\":\"Posto\",\"logoUrl\":\"https://c/l.png\",\"logoUpdatedAt\":17}");
    assert_eq!(sync_branding("https://p", &reply, &kept("", "", false)), fetched("https://c/l.png"));
}

#[test]
fn brand_without_logo() {
    let none = |name: &str| BrandingPlan {
        writes: writes(&[
            ("cd_brand_name", name),
            ("cd_brand_logo_path", ""),
            ("cd_logo_updated_at", "0"),
        ]),
        logo: None,
    };
    let old = kept("17", "l.png", true);
    assert_eq!(sync_branding("https://p", &json("{}"), &old), none(""));
    let reply = json("{\"brandName\":\"Posto\",\"logoUrl\":\"/l.png\",\"logoUpdatedAt\":0}");
    assert_eq!(sync_branding("https://p", &reply, &old), none("Posto"));
    let reply = json("{\"brandName\":\"Posto\",\"logoUrl\":\"\",\"logoUpdatedAt\":17}");
    assert_eq!(sync_branding("https://p", &reply, &old), none("Posto"));
    let reply = json("{\"logoUrl\":\"/l.png\",\"logoUpdatedAt\":\"17\"}");
    assert_eq!(sync_branding("https://p", &reply, &old), none(""));
}

#[test]
fn saved_logo_is_kept() {
    let path = format!("C:\\ProgramData\\ConectDesk\\{}", LOGO_FILE);
    assert_eq!(
        logo_saved(&path, 1780797000123),
        writes(&[
            ("cd_brand_logo_path", "C:\\ProgramData\\ConectDesk\\branding.png"),
            ("cd_logo_updated_at", "1780797000123"),
        ])
    );
}

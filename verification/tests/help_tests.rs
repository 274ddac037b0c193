use dispatch_core::help::{
    edit_distance_ex,
    not_found_message,
    render,
    suggest,
    HelpConfig,
    Requester,
    Visibility,
};
use dispatch_core::registry::{Command, CommandGroup, Registry};
use dispatch_core::roles::role_list_body;

fn bv(s: &str) -> Vec<u8> {
    s.as_bytes().to_vec()
}

fn command(name: &str, role: Option<u64>, owner_only: bool) -> Command {
    Command {
        name: bv(name),
        aliases: vec![],
        bucket: None,
        required_role: role,
        owner_only,
        summary: bv("does things"),
    }
}

fn registry() -> Registry {
    let mut r = Registry::new();
    r.register(
        CommandGroup {
            name: bv("general"),
            prefixes: vec![],
            default_command: None,
            summary: bv(""),
            commands: vec![
                command("roles", None, false),
                command("secret", Some(99), false),
                command("shutdown", None, true),
            ],
        },
        false,
    )
    .expect("registered");
    r
}

fn text(v: &[u8]) -> String {
    String::from_utf8(v.to_vec()).expect("utf8")
}

#[test]
fn lacking_role_hide_omits_the_command_entirely() {
    let reg = registry();
    let req = Requester { roles: vec![], is_owner: false };
    let hc = HelpConfig {
        lacking_permissions: Visibility::Hide,
        lacking_role: Visibility::Hide,
        max_suggestion_distance: 3,
    };
    let out = text(&render(&reg, &req, &hc));
    assert!(out.contains("roles"));
    assert!(!out.contains("secret"));
    assert!(!out.contains("shutdown"));
}

#[test]
fn placeholder_policy_masks_instead_of_hiding() {
    let reg = registry();
    let req = Requester { roles: vec![], is_owner: false };
    let hc = HelpConfig {
        lacking_permissions: Visibility::Hide,
        lacking_role: Visibility::ShowPlaceholder,
        max_suggestion_distance: 3,
    };
    let out = text(&render(&reg, &req, &hc));
    assert!(out.contains("(hidden)"));
    assert!(!out.contains("secret"));
}

#[test]
fn holders_of_the_role_and_owners_see_everything() {
    let reg = registry();
    let req = Requester { roles: vec![99], is_owner: true };
    let hc = HelpConfig {
        lacking_permissions: Visibility::Hide,
        lacking_role: Visibility::Hide,
        max_suggestion_distance: 3,
    };
    let out = text(&render(&reg, &req, &hc));
    assert!(out.contains("secret"));
    assert!(out.contains("shutdown"));
    assert_eq!(
        out,
        "general:\n  roles - does things\n  secret - does things\n  shutdown - does things\n"
    );
}

#[test]
fn listing_shows_aliases_and_bucket() {
    let mut reg = Registry::new();
    reg.register(
        CommandGroup {
            name: bv("emoji"),
            prefixes: vec![bv("emoji")],
            default_command: None,
            summary: bv(""),
            commands: vec![Command {
                name: bv("dog"),
                aliases: vec![bv("pup")],
                bucket: Some(bv("emoji")),
                required_role: None,
                owner_only: false,
                summary: bv("Sends an emoji with a dog."),
            }],
        },
        false,
    )
    .expect("registered");
    let req = Requester { roles: vec![], is_owner: false };
    let hc = HelpConfig {
        lacking_permissions: Visibility::Hide,
        lacking_role: Visibility::Hide,
        max_suggestion_distance: 3,
    };
    let out = text(&render(&reg, &req, &hc));
    assert_eq!(
        out,
        "emoji:\n  dog/pup - Sends an emoji with a dog. [bucket: emoji]\n"
    );
}

#[test]
fn edit_distance_exact_values() {
    assert_eq!(edit_distance_ex(&bv("kitten"), &bv("sitting")), 3);
    assert_eq!(edit_distance_ex(&bv("roles"), &bv("role")), 1);
    assert_eq!(edit_distance_ex(&bv("dog"), &bv("dog")), 0);
    assert_eq!(edit_distance_ex(&bv(""), &bv("abc")), 3);
}

#[test]
fn near_miss_gets_a_suggestion_within_the_threshold() {
    let reg = registry();
    let s = suggest(&reg, &bv("rolse"), 3).expect("a suggestion");
    assert_eq!(s, bv("roles"));
    assert!(suggest(&reg, &bv("qqqqqqqqqq"), 3).is_none());
}

#[test]
fn not_found_message_carries_token_and_suggestion() {
    let reg = registry();
    let out = text(&not_found_message(&reg, &bv("rolse"), 3));
    assert_eq!(out, "Could not find: `rolse`. Did you mean `roles`?");
    let far = text(&not_found_message(&reg, &bv("qqqqqqqqqq"), 3));
    assert_eq!(far, "Could not find: `qqqqqqqqqq`.");
}

#[test]
fn role_listing_drops_the_leading_builtin_role() {
    let names = vec![bv("@everyone"), bv("admin"), bv("member")];
    assert_eq!(role_list_body(&names), bv("admin\nmember"));
    let only_builtin = vec![bv("@everyone")];
    assert_eq!(role_list_body(&only_builtin), bv(""));
}

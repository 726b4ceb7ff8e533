//! Projects: who may open one, which names a new project may take, and what the "New
//! project" control says.

use vstd::prelude::*;
use crate::error::ApiError;
use crate::json::{get, get_text, views, JsonValue};
use crate::resource::Envelope;
use crate::text::{
    append_str, chars_of, eq_ignore_case, has_prefix, is_digit, same_ignoring_case, seq_eq,
    slice_of, starts_with, str_eq, string_of, trim_chars, trimmed,
};

verus! {

/// The organisation's own namespace, which is no project.
pub open spec fn org_namespace() -> Seq<char> {
    "org"@
}

/// Who is asking, as the identity provider and the session describe them.
#[derive(Debug)]
pub struct Identity {
    pub subject: String,
    pub username: String,
    pub email: Option<String>,
    pub name: Option<String>,
    pub roles: Vec<String>,
    pub groups: Vec<String>,
}

/// The projects the configuration repository holds.
#[derive(Debug)]
pub struct ProjectList {
    pub api_version: String,
    pub kind: String,
    pub items: Vec<ProjectSummary>,
}

#[derive(Debug)]
pub struct ProjectSummary {
    /// The project slug, the `{project}` segment of every other path.
    pub name: String,
}

/// One quota dimension of a project: what it holds and what it may.
#[derive(Debug)]
pub struct Usage {
    pub used: u32,
    /// Absent when no quota limits this dimension.
    pub limit: Option<u32>,
}

#[derive(Debug)]
pub struct ProjectStatus {
    /// Every countable dimension by its manifest field name, in name order.
    pub usage: Vec<(String, Usage)>,
}

/// What a person fills in to open a project.
#[derive(Debug)]
pub struct OpenProject {
    /// The slug: the `{project}` segment of every path of it.
    pub name: String,
    pub display_name: Option<String>,
    pub description: Option<String>,
}

// ---------------------------------------------------------------------------------------
// Who may open a project
// ---------------------------------------------------------------------------------------

/// `spec.projects.creation` of an organisation manifest.
pub open spec fn creation_of(e: Envelope) -> Option<Seq<char>> {
    match get(e.spec, "projects"@) {
        Some(p) => get_text(p, "creation"@),
        None => None,
    }
}

/// The first organisation manifest's creation setting, `org-admin` when none says.
pub open spec fn creation_setting_of(organizations: Seq<Envelope>) -> Seq<char>
    decreases organizations.len(),
{
    if organizations.len() == 0 {
        "org-admin"@
    } else {
        match creation_of(organizations[0]) {
            Some(c) => c,
            None => creation_setting_of(organizations.drop_first()),
        }
    }
}

fn creation_in(e: &Envelope) -> (r: Option<&String>)
    ensures
        match r {
            Some(s) => creation_of(*e) == Some(s@),
            None => creation_of(*e) is None,
        },
{
    match e.spec.get_member("projects") {
        Some(p) => p.text_at("creation"),
        None => None,
    }
}

/// Whether an organisation manifest says nothing of who may open a project: its spec has no
/// `projects` member, or that member has no text `creation`.
pub open spec fn silent_on_creation(e: Envelope) -> bool {
    get(e.spec, "projects"@) is None || get_text(get(e.spec, "projects"@).unwrap(), "creation"@) is None
}

/// Who may open a project is what the first organisation manifest that says so says; when
/// none says, it is `org-admin`, the rule that asks for `propose` on `Project`.
pub proof fn the_first_manifest_that_says_decides(organizations: Seq<Envelope>)
    ensures
        (forall|i: int| 0 <= i < organizations.len() ==> silent_on_creation(#[trigger] organizations[i]))
            ==> creation_setting_of(organizations) == "org-admin"@,
        (forall|i: int| 0 <= i < organizations.len() ==> silent_on_creation(#[trigger] organizations[i]))
            ==> forall|rule: OpeningRule| #[trigger] rule_matches(creation_setting_of(organizations), rule)
            ==> rule is OrgAdmin,
        forall|i: int|
            0 <= i < organizations.len() && !silent_on_creation(#[trigger] organizations[i]) && (forall|k: int|
                0 <= k < i ==> silent_on_creation(organizations[k])) ==> creation_setting_of(organizations)
                == get_text(get(organizations[i].spec, "projects"@).unwrap(), "creation"@).unwrap(),
    decreases organizations.len(),
{
    if organizations.len() > 0 {
        let rest = organizations.drop_first();
        the_first_manifest_that_says_decides(rest);
        if forall|i: int| 0 <= i < organizations.len() ==> silent_on_creation(#[trigger] organizations[i]) {
            assert(silent_on_creation(organizations[0]));
            assert forall|i: int| 0 <= i < rest.len() implies silent_on_creation(#[trigger] rest[i]) by {
                assert(rest[i] == organizations[i + 1]);
            }
        }
        assert forall|i: int|
            0 <= i < organizations.len() && !silent_on_creation(#[trigger] organizations[i]) && (forall|k: int|
                0 <= k < i ==> silent_on_creation(organizations[k])) implies creation_setting_of(organizations)
                == get_text(get(organizations[i].spec, "projects"@).unwrap(), "creation"@).unwrap() by {
            if i > 0 {
                assert(silent_on_creation(organizations[0]));
                assert(rest[i - 1] == organizations[i]);
                assert forall|k: int| 0 <= k < i - 1 implies silent_on_creation(rest[k]) by {
                    assert(rest[k] == organizations[k + 1]);
                }
            }
        }
    }
    reveal_strlit("org-admin");
    reveal_strlit("anyone");
    reveal_strlit("group:");
    assert("org-admin"@ != "anyone"@) by {
        assert("org-admin"@.len() != "anyone"@.len());
    }
    assert(!starts_with("org-admin"@, "group:"@)) by {
        assert("org-admin"@[0] != "group:"@[0]);
    }
}

/// What the organisation's own manifests say about who may open a project.
pub fn creation_setting(organizations: &Vec<Envelope>) -> (s: String)
    ensures
        s@ == creation_setting_of(organizations@),
        (forall|i: int| 0 <= i < organizations@.len() ==> silent_on_creation(#[trigger] organizations@[i]))
            ==> s@ == "org-admin"@,
{
    proof {
        the_first_manifest_that_says_decides(organizations@);
    }
    let mut i: usize = 0;
    assert(organizations@.subrange(0, organizations@.len() as int) =~= organizations@);
    while i < organizations.len()
        invariant
            i <= organizations@.len(),
            creation_setting_of(organizations@) == creation_setting_of(
                organizations@.subrange(i as int, organizations@.len() as int),
            ),
        decreases organizations.len() - i,
    {
        let ghost rest = organizations@.subrange(i as int, organizations@.len() as int);
        assert(rest.drop_first() =~= organizations@.subrange(i + 1, organizations@.len() as int));
        assert(rest[0] == organizations@[i as int]);
        match creation_in(&organizations[i]) {
            Some(c) => return c.clone(),
            None => {},
        }
        i = i + 1;
    }
    string_of(chars_of("org-admin").as_slice())
}

/// Whether some organisation manifest lets anyone open a project.
pub open spec fn anyone_opens(organizations: Seq<Envelope>) -> bool {
    exists|i: int| 0 <= i < organizations.len() && creation_of(#[trigger] organizations[i]) == Some("anyone"@)
}

pub fn lets_anyone_open(organizations: &Vec<Envelope>) -> (b: bool)
    ensures
        b == anyone_opens(organizations@),
{
    let mut i: usize = 0;
    while i < organizations.len()
        invariant
            i <= organizations@.len(),
            forall|k: int| 0 <= k < i ==> creation_of(#[trigger] organizations@[k]) != Some("anyone"@),
        decreases organizations.len() - i,
    {
        match creation_in(&organizations[i]) {
            Some(c) => {
                if str_eq(c.as_str(), "anyone") {
                    return true;
                }
            },
            None => {},
        }
        i = i + 1;
    }
    false
}

/// Who may open a project.
#[derive(Debug)]
pub enum OpeningRule {
    /// Every signed-in person.
    Anyone,
    /// The members of one group.
    Group(String),
    /// Whoever holds `propose` on `Project`.
    OrgAdmin,
}

/// `str::trim_start_matches`: the string without every copy of `p` it starts with.
pub open spec fn without_leading(s: Seq<char>, p: Seq<char>) -> Seq<char>
    decreases s.len(),
{
    if p.len() > 0 && starts_with(s, p) {
        without_leading(s.subrange(p.len() as int, s.len() as int), p)
    } else {
        s
    }
}

/// Whether `rule` is the one a creation setting names: `anyone`, `group:<name>`, anything else
/// `org-admin`.
pub open spec fn rule_matches(setting: Seq<char>, rule: OpeningRule) -> bool {
    if setting == "anyone"@ {
        rule is Anyone
    } else if starts_with(setting, "group:"@) {
        rule matches OpeningRule::Group(g) && g@ == without_leading(setting, "group:"@)
    } else {
        rule is OrgAdmin
    }
}

pub fn opening_rule(setting: &str) -> (r: OpeningRule)
    ensures
        rule_matches(setting@, r),
{
    let s = chars_of(setting);
    let prefix = chars_of("group:");
    if seq_eq(s.as_slice(), chars_of("anyone").as_slice()) {
        return OpeningRule::Anyone;
    }
    if !has_prefix(s.as_slice(), prefix.as_slice()) {
        return OpeningRule::OrgAdmin;
    }
    proof {
        reveal_strlit("group:");
    }
    let mut rest = s;
    while has_prefix(rest.as_slice(), prefix.as_slice())
        invariant
            prefix@ == "group:"@,
            prefix@.len() == 6,
            without_leading(setting@, "group:"@) == without_leading(rest@, "group:"@),
        decreases rest@.len(),
    {
        rest = slice_of(rest.as_slice(), prefix.len(), rest.len());
    }
    OpeningRule::Group(string_of(rest.as_slice()))
}

/// Whether one entry of a group's `members` names the person: by `user`, or as a bare string,
/// compared to the username or the e-mail in any ASCII case.
pub open spec fn member_names(member: JsonValue, username: Seq<char>, email: Option<Seq<char>>) -> bool {
    let named = match get_text(member, "user"@) {
        Some(u) => u,
        None => match member {
            JsonValue::Str(s) => s@,
            _ => Seq::empty(),
        },
    };
    named.len() > 0 && (same_ignoring_case(named, username) || match email {
        Some(e) => same_ignoring_case(named, e),
        None => false,
    })
}

/// Whether the person is a member of the named group: by the `Group` manifest when there is
/// one, else by the identity provider's own groups.
pub open spec fn in_group_of(group: Option<Envelope>, username: Seq<char>, email: Option<Seq<char>>, groups: Seq<Seq<char>>, name: Seq<char>) -> bool {
    match group {
        Some(g) => match get(g.spec, "members"@) {
            Some(JsonValue::Array(members)) => names_in(members@, username, email),
            _ => false,
        },
        None => groups.contains(name),
    }
}

/// Whether one of the members names the person.
pub open spec fn names_in(members: Seq<JsonValue>, username: Seq<char>, email: Option<Seq<char>>) -> bool {
    exists|i: int| 0 <= i < members.len() && member_names(#[trigger] members[i], username, email)
}

fn names_member(member: &JsonValue, identity: &Identity) -> (b: bool)
    ensures
        b == member_names(
            *member,
            identity.username@,
            match identity.email {
                Some(e) => Some(e@),
                None => None,
            },
        ),
{
    let named = match member.text_at("user") {
        Some(u) => chars_of(u.as_str()),
        None => match member {
            JsonValue::Str(s) => chars_of(s.as_str()),
            _ => Vec::new(),
        },
    };
    if named.len() == 0 {
        return false;
    }
    let user = chars_of(identity.username.as_str());
    if eq_ignore_case(named.as_slice(), user.as_slice()) {
        return true;
    }
    match &identity.email {
        Some(e) => {
            let ec = chars_of(e.as_str());
            eq_ignore_case(named.as_slice(), ec.as_slice())
        },
        None => false,
    }
}

/// Whether the caller is a member of the named group: the `Group` manifest first, which is the
/// configuration, and the identity provider's own groups as long as no manifest names them.
pub fn in_group(group: Option<&Envelope>, identity: &Identity, name: &str) -> (b: bool)
    ensures
        b == in_group_of(
            match group {
                Some(g) => Some(*g),
                None => None,
            },
            identity.username@,
            match identity.email {
                Some(e) => Some(e@),
                None => None,
            },
            views(identity.groups@),
            name@,
        ),
{
    match group {
        Some(g) => match g.spec.get_member("members") {
            Some(JsonValue::Array(members)) => {
                let mut i: usize = 0;
                while i < members.len()
                    invariant
                        i <= members@.len(),
                        group == Some(g),
                        get(g.spec, "members"@) == Some(JsonValue::Array(*members)),
                        forall|k: int|
                            0 <= k < i ==> !member_names(
                                #[trigger] members@[k],
                                identity.username@,
                                match identity.email {
                                    Some(e) => Some(e@),
                                    None => None,
                                },
                            ),
                    decreases members.len() - i,
                {
                    if names_member(&members[i], identity) {
                        assert(member_names(
                            members@[i as int],
                            identity.username@,
                            match identity.email {
                                Some(e) => Some(e@),
                                None => None,
                            },
                        ));
                        assert(names_in(
                            members@,
                            identity.username@,
                            match identity.email {
                                Some(e) => Some(e@),
                                None => None,
                            },
                        ));
                        return true;
                    }
                    i = i + 1;
                }
                false
            },
            _ => false,
        },
        None => {
            let mut i: usize = 0;
            while i < identity.groups.len()
                invariant
                    i <= identity.groups@.len(),
                    group is None,
                    forall|k: int| 0 <= k < i ==> identity.groups@[k]@ != name@,
                decreases identity.groups.len() - i,
            {
                if str_eq(identity.groups[i].as_str(), name) {
                    assert(views(identity.groups@)[i as int] == name@);
                    return true;
                }
                i = i + 1;
            }
            assert(!views(identity.groups@).contains(name@)) by {
                if views(identity.groups@).contains(name@) {
                    let k = choose|k: int| 0 <= k < views(identity.groups@).len() && views(identity.groups@)[k] == name@;
                    assert(identity.groups@[k]@ == name@);
                }
            }
            false
        },
    }
}

pub open spec fn group_refusal(name: Seq<char>) -> Seq<char> {
    "opening a project here is for the members of group '"@ + name + "' (PF-65)"@
}

pub open spec fn admin_refusal() -> Seq<char> {
    "opening a project here needs propose on Project, which org-admin holds (PF-65)"@
}

/// Whether the person may open a project under the rule: anyone may, a group's members may,
/// and otherwise whoever holds `propose` on `Project`.
pub fn may_open(rule: &OpeningRule, member: bool, may_propose: bool) -> (r: Result<(), ApiError>)
    ensures
        match rule {
            OpeningRule::Anyone => r is Ok,
            OpeningRule::Group(g) => if member {
                r is Ok
            } else {
                r matches Err(ApiError::Denied(m)) && m@ == group_refusal(g@)
            },
            OpeningRule::OrgAdmin => if may_propose {
                r is Ok
            } else {
                r matches Err(ApiError::Denied(m)) && m@ == admin_refusal()
            },
        },
{
    match rule {
        OpeningRule::Anyone => Ok(()),
        OpeningRule::Group(g) => {
            if member {
                Ok(())
            } else {
                let mut m = chars_of("opening a project here is for the members of group '");
                append_str(&mut m, g.as_str());
                append_str(&mut m, "' (PF-65)");
                Err(ApiError::Denied(string_of(m.as_slice())))
            }
        },
        OpeningRule::OrgAdmin => {
            if may_propose {
                Ok(())
            } else {
                Err(
                    ApiError::Denied(
                        string_of(
                            chars_of(
                                "opening a project here needs propose on Project, which org-admin holds (PF-65)",
                            ).as_slice(),
                        ),
                    ),
                )
            }
        },
    }
}

/// Whether a control is enabled, and why not when it is not.
#[derive(Debug)]
pub struct Affordance {
    pub allowed: bool,
    pub reason: Option<String>,
}

/// The same answer as [`may_open`], in the shape the UI carries: the "New project" control is
/// enabled, or disabled with the refusal's words, and never hidden.
pub fn creation_affordance(rule: &OpeningRule, member: bool, may_propose: bool) -> (a: Affordance)
    ensures
        match rule {
            OpeningRule::Anyone => a.allowed && a.reason is None,
            OpeningRule::Group(g) => if member {
                a.allowed && a.reason is None
            } else {
                !a.allowed && (a.reason matches Some(r) && r@ == group_refusal(g@))
            },
            OpeningRule::OrgAdmin => if may_propose {
                a.allowed && a.reason is None
            } else {
                !a.allowed && (a.reason matches Some(r) && r@ == admin_refusal())
            },
        },
{
    match may_open(rule, member, may_propose) {
        Ok(()) => Affordance { allowed: true, reason: None },
        Err(ApiError::Denied(m)) => Affordance { allowed: false, reason: Some(m) },
        Err(_) => Affordance { allowed: false, reason: None },
    }
}

// ---------------------------------------------------------------------------------------
// The name of a new project
// ---------------------------------------------------------------------------------------

pub open spec fn label_char(c: char) -> bool {
    ('a' <= c && c <= 'z') || is_digit(c) || c == '-'
}

/// A DNS-1123 label: 1 to 63 lower-case letters, digits and hyphens, starting and ending with a
/// letter or a digit.
pub open spec fn dns1123(s: Seq<char>) -> bool {
    &&& 0 < s.len() <= 63
    &&& forall|i: int| 0 <= i < s.len() ==> label_char(#[trigger] s[i])
    &&& s[0] != '-'
    &&& s.last() != '-'
}

pub fn is_dns1123(s: &str) -> (b: bool)
    ensures
        b == dns1123(s@),
{
    let c = chars_of(s);
    if c.len() == 0 || c.len() > 63 {
        return false;
    }
    let mut i: usize = 0;
    while i < c.len()
        invariant
            i <= c@.len(),
            c@ == s@,
            0 < c@.len() <= 63,
            forall|k: int| 0 <= k < i ==> label_char(#[trigger] c@[k]),
        decreases c.len() - i,
    {
        let ch = c[i];
        if !(('a' <= ch && ch <= 'z') || ('0' <= ch && ch <= '9') || ch == '-') {
            return false;
        }
        i = i + 1;
    }
    c[0] != '-' && c[c.len() - 1] != '-'
}

pub open spec fn not_a_label(name: Seq<char>) -> Seq<char> {
    "project name '"@ + name
        + "' is not a DNS-1123 label: lowercase letters, digits and hyphens, starting and ending with a letter or a digit (PF-67)"@
}

pub open spec fn org_is_no_project(name: Seq<char>) -> Seq<char> {
    "'"@ + name + "' is the organization's own namespace and is not a project (PF-67)"@
}

pub open spec fn already_exists(name: Seq<char>) -> Seq<char> {
    "project '"@ + name + "' already exists (PF-67)"@
}

/// The name a new project takes, trimmed, or why it may not take it: it must be a DNS-1123
/// label, not the organisation's namespace, and no project of that name may exist.
pub fn new_project_name(requested: &str, exists: bool) -> (r: Result<String, ApiError>)
    ensures
        ({
            let name = trimmed(requested@);
            if !dns1123(name) {
                r matches Err(ApiError::BadRequest(m)) && m@ == not_a_label(name)
            } else if name == org_namespace() {
                r matches Err(ApiError::BadRequest(m)) && m@ == org_is_no_project(name)
            } else if exists {
                r matches Err(ApiError::Conflict(m)) && m@ == already_exists(name)
            } else {
                r matches Ok(n) && n@ == name
            }
        }),
{
    let c = chars_of(requested);
    let t = trim_chars(c.as_slice());
    let name = string_of(t.as_slice());
    if !is_dns1123(name.as_str()) {
        let mut m = chars_of("project name '");
        append_str(&mut m, name.as_str());
        append_str(
            &mut m,
            "' is not a DNS-1123 label: lowercase letters, digits and hyphens, starting and ending with a letter or a digit (PF-67)",
        );
        return Err(ApiError::BadRequest(string_of(m.as_slice())));
    }
    if str_eq(name.as_str(), "org") {
        let mut m = chars_of("'");
        append_str(&mut m, name.as_str());
        append_str(&mut m, "' is the organization's own namespace and is not a project (PF-67)");
        return Err(ApiError::BadRequest(string_of(m.as_slice())));
    }
    if exists {
        let mut m = chars_of("project '");
        append_str(&mut m, name.as_str());
        append_str(&mut m, "' already exists (PF-67)");
        return Err(ApiError::Conflict(string_of(m.as_slice())));
    }
    Ok(name)
}

/// Whether an open change already proposes a project of this name: its branch starts with
/// `portal/create-project-{name}-`.
pub open spec fn proposed_by(branches: Seq<Seq<char>>, name: Seq<char>) -> bool {
    exists|i: int| 0 <= i < branches.len() && starts_with(#[trigger] branches[i], "portal/create-project-"@ + name + "-"@)
}

pub fn already_proposed(open_branches: &Vec<String>, name: &str) -> (b: bool)
    ensures
        b == proposed_by(views(open_branches@), name@),
{
    let mut p = chars_of("portal/create-project-");
    append_str(&mut p, name);
    append_str(&mut p, "-");
    let mut i: usize = 0;
    while i < open_branches.len()
        invariant
            i <= open_branches@.len(),
            p@ == "portal/create-project-"@ + name@ + "-"@,
            forall|k: int| 0 <= k < i ==> !starts_with(#[trigger] views(open_branches@)[k], p@),
        decreases open_branches.len() - i,
    {
        let b = chars_of(open_branches[i].as_str());
        if has_prefix(b.as_slice(), p.as_slice()) {
            assert(views(open_branches@)[i as int] == b@);
            return true;
        }
        i = i + 1;
    }
    false
}

// ---------------------------------------------------------------------------------------
// Deleting a project
// ---------------------------------------------------------------------------------------

/// A role binding's scope names the project, or one of its spaces.
pub open spec fn scope_names(scope: JsonValue, project: Seq<char>, spaces: Seq<Seq<char>>) -> bool {
    get_text(scope, "project"@) == Some(project) || (get_text(scope, "contextSpace"@) is Some
        && spaces.contains(get_text(scope, "contextSpace"@)->0))
}

/// A role binding's `spec.scope`.
pub open spec fn binding_scope(spec: JsonValue) -> JsonValue {
    match get(spec, "scope"@) {
        Some(s) => s,
        None => JsonValue::Null,
    }
}

/// A file the deletion of `project` removes: one under `projects/{project}/`, or the file of a
/// role binding (`bindings`: its path and its `spec`) whose scope names the project or
/// one of its spaces, when the tree holds it.
pub open spec fn removed_by_deletion(
    tree: Seq<Seq<char>>,
    project: Seq<char>,
    spaces: Seq<Seq<char>>,
    bindings: Seq<(String, JsonValue)>,
    x: Seq<char>,
) -> bool {
    ||| tree.contains(x) && starts_with(x, "projects/"@ + project + "/"@)
    ||| tree.contains(x) && exists|i: int|
        0 <= i < bindings.len() && (#[trigger] bindings[i]).0@ == x && scope_names(binding_scope(bindings[i].1), project, spaces)
}

fn names_space(spaces: &Vec<String>, s: &String) -> (b: bool)
    ensures
        b == views(spaces@).contains(s@),
{
    let mut i: usize = 0;
    while i < spaces.len()
        invariant
            i <= spaces@.len(),
            forall|k: int| 0 <= k < i ==> spaces@[k]@ != s@,
        decreases spaces.len() - i,
    {
        if str_eq(spaces[i].as_str(), s.as_str()) {
            assert(views(spaces@)[i as int] == s@);
            return true;
        }
        i = i + 1;
    }
    assert(!views(spaces@).contains(s@)) by {
        if views(spaces@).contains(s@) {
            let k = choose|k: int| 0 <= k < views(spaces@).len() && views(spaces@)[k] == s@;
            assert(spaces@[k]@ == s@);
        }
    }
    false
}

/// Every file the deletion of a project removes, each once, in order: its own tree, and the
/// role bindings of the organization whose scope names the project or one of its spaces —
/// those live outside the project's tree, and would otherwise be left pointing at nothing.
/// `spaces` are the project's ContextSpaces; `bindings` the organization's role bindings, each
/// with the path it is filed under and its `spec`.
pub fn deletion_files(
    tree: &Vec<String>,
    project: &str,
    spaces: &Vec<String>,
    bindings: &Vec<(String, JsonValue)>,
) -> (files: Vec<String>)
    ensures
        crate::federation::strictly_sorted(views(files@)),
        forall|x: Seq<char>| #[trigger] views(files@).contains(x) <==> removed_by_deletion(
            views(tree@),
            project@,
            views(spaces@),
            bindings@,
            x,
        ),
{
    let mut prefix = chars_of("projects/");
    append_str(&mut prefix, project);
    append_str(&mut prefix, "/");
    let mut files: Vec<String> = Vec::new();
    let ghost t = views(tree@);
    let mut i: usize = 0;
    while i < tree.len()
        invariant
            i <= tree@.len(),
            t == views(tree@),
            prefix@ == "projects/"@ + project@ + "/"@,
            crate::federation::strictly_sorted(views(files@)),
            forall|x: Seq<char>| #[trigger] views(files@).contains(x) <==> exists|k: int|
                0 <= k < i && t[k] == x && starts_with(x, prefix@),
        decreases tree.len() - i,
    {
        let c = chars_of(tree[i].as_str());
        let ghost before = views(files@);
        assert(t[i as int] == tree@[i as int]@);
        let fits = has_prefix(c.as_slice(), prefix.as_slice());
        if fits {
            crate::federation::add_sorted(&mut files, &tree[i]);
        }
        assert forall|x: Seq<char>| #[trigger] views(files@).contains(x) <==> exists|k: int|
            0 <= k < i + 1 && t[k] == x && starts_with(x, prefix@) by {
            if exists|k: int| 0 <= k < i + 1 && t[k] == x && starts_with(x, prefix@) {
                let k = choose|k: int| 0 <= k < i + 1 && t[k] == x && starts_with(x, prefix@);
                if k < i {
                    assert(before.contains(x));
                } else {
                    assert(fits);
                }
            }
            if views(files@).contains(x) {
                if before.contains(x) {
                    let k = choose|k: int| 0 <= k < i && t[k] == x && starts_with(x, prefix@);
                    assert(t[k] == x);
                } else {
                    assert(x == t[i as int]);
                }
            }
        }
        i = i + 1;
    }
    let ghost own = views(files@);
    let mut j: usize = 0;
    while j < bindings.len()
        invariant
            j <= bindings@.len(),
            t == views(tree@),
            prefix@ == "projects/"@ + project@ + "/"@,
            crate::federation::strictly_sorted(views(files@)),
            forall|x: Seq<char>| own.contains(x) <==> t.contains(x) && starts_with(x, "projects/"@ + project@ + "/"@),
            forall|x: Seq<char>| #[trigger] views(files@).contains(x) <==> (own.contains(x) || (t.contains(x)
                && exists|k: int| 0 <= k < j && (#[trigger] bindings@[k]).0@ == x && scope_names(binding_scope(bindings@[k].1), project@, views(spaces@)))),
        decreases bindings.len() - j,
    {
        let scope = match bindings[j].1.get_member("scope") {
            Some(s) => s,
            None => &JsonValue::Null,
        };
        let ghost sv = *scope;
        let by_project = match scope.text_at("project") {
            Some(p) => str_eq(p.as_str(), project),
            None => false,
        };
        let by_space = match scope.text_at("contextSpace") {
            Some(sp) => names_space(spaces, sp),
            None => false,
        };
        let ghost before = views(files@);
        let path = &bindings[j].0;
        let mut in_tree = false;
        let mut k: usize = 0;
        while k < tree.len()
            invariant
                k <= tree@.len(),
                t == views(tree@),
                !in_tree ==> forall|m: int| 0 <= m < k ==> t[m] != path@,
                in_tree ==> t.contains(path@),
            decreases tree.len() - k,
        {
            assert(t[k as int] == tree@[k as int]@);
            if str_eq(tree[k].as_str(), path.as_str()) {
                in_tree = true;
            }
            k = k + 1;
        }
        proof {
            if !in_tree {
                assert(!t.contains(path@));
            }
        }
        let named = by_project || by_space;
        assert(named == scope_names(binding_scope(bindings@[j as int].1), project@, views(spaces@)));
        if named && in_tree {
            crate::federation::add_sorted(&mut files, path);
        }
        assert forall|x: Seq<char>| #[trigger] views(files@).contains(x) <==> (own.contains(x) || (t.contains(x)
            && exists|k: int| 0 <= k < j + 1 && (#[trigger] bindings@[k]).0@ == x && scope_names(binding_scope(bindings@[k].1), project@, views(spaces@)))) by {
            if exists|k: int| 0 <= k < j + 1 && (#[trigger] bindings@[k]).0@ == x && scope_names(binding_scope(bindings@[k].1), project@, views(spaces@)) {
                let k = choose|k: int| 0 <= k < j + 1 && (#[trigger] bindings@[k]).0@ == x && scope_names(binding_scope(bindings@[k].1), project@, views(spaces@));
                if k < j {
                    if t.contains(x) {
                        assert(before.contains(x));
                    }
                }
            }
            if views(files@).contains(x) && !before.contains(x) {
                assert(x == path@);
                assert(bindings@[j as int].0@ == x);
            }
            if before.contains(x) && !own.contains(x) {
                let k = choose|k: int| 0 <= k < j && (#[trigger] bindings@[k]).0@ == x && scope_names(binding_scope(bindings@[k].1), project@, views(spaces@));
                assert(bindings@[k].0@ == x);
            }
        }
        j = j + 1;
    }
    files
}

/// A share of another project that points at one of this project's Endpoints.
pub open spec fn shares_endpoint(m: Envelope, project: Seq<char>, slugs: Seq<Seq<char>>) -> bool {
    &&& m.kind@ == "SharedSpaceReference"@
    &&& !(m.metadata.namespace matches Some(n) && n@ == project)
    &&& get_text(m.spec, "endpointSlug"@) is Some
    &&& slugs.contains(get_text(m.spec, "endpointSlug"@)->0)
}

/// The slugs of a project's Endpoints.
pub open spec fn endpoint_slugs(endpoints: Seq<Envelope>) -> Seq<Seq<char>>
    decreases endpoints.len(),
{
    if endpoints.len() == 0 {
        Seq::empty()
    } else {
        let before = endpoint_slugs(endpoints.drop_last());
        match get_text(endpoints.last().spec, "slug"@) {
            Some(s) => before.push(s),
            None => before,
        }
    }
}

/// A share as `{namespace}/{name}`, the namespace empty when it has none.
pub open spec fn share_name(m: Envelope) -> Seq<char> {
    (match m.metadata.namespace {
        Some(n) => n@,
        None => Seq::empty(),
    }) + "/"@ + m.metadata.name@
}

fn slugs_of(endpoints: &Vec<Envelope>) -> (out: Vec<String>)
    ensures
        views(out@) == endpoint_slugs(endpoints@),
{
    let mut out: Vec<String> = Vec::new();
    let mut i: usize = 0;
    while i < endpoints.len()
        invariant
            i <= endpoints@.len(),
            views(out@) == endpoint_slugs(endpoints@.take(i as int)),
        decreases endpoints.len() - i,
    {
        assert(endpoints@.take(i + 1).drop_last() =~= endpoints@.take(i as int));
        assert(endpoints@.take(i + 1).last() == endpoints@[i as int]);
        if let Some(s) = endpoints[i].spec.text_at("slug") {
            let ghost before = views(out@);
            out.push(s.clone());
            assert(views(out@) =~= before.push(s@));
        }
        i = i + 1;
    }
    assert(endpoints@.take(endpoints@.len() as int) =~= endpoints@);
    out
}

/// The shares of other projects that point at this project's Endpoints, as
/// `{namespace}/{name}`, each once, in order: removing one is that project's own change, so a
/// deletion waits for them and names them. `endpoints` are the project's Endpoints; `manifests`
/// what the mirror holds of the other kinds.
pub fn live_references(endpoints: &Vec<Envelope>, manifests: &Vec<Envelope>, project: &str) -> (out: Vec<String>)
    ensures
        crate::federation::strictly_sorted(views(out@)),
        forall|x: Seq<char>| #[trigger] views(out@).contains(x) <==> exists|i: int|
            0 <= i < manifests@.len() && shares_endpoint(#[trigger] manifests@[i], project@, endpoint_slugs(endpoints@))
                && x == share_name(manifests@[i]),
{
    let slugs = slugs_of(endpoints);
    let ghost sl = endpoint_slugs(endpoints@);
    let mut out: Vec<String> = Vec::new();
    let mut i: usize = 0;
    while i < manifests.len()
        invariant
            i <= manifests@.len(),
            views(slugs@) == sl,
            sl == endpoint_slugs(endpoints@),
            crate::federation::strictly_sorted(views(out@)),
            forall|x: Seq<char>| #[trigger] views(out@).contains(x) <==> exists|k: int|
                0 <= k < i && shares_endpoint(#[trigger] manifests@[k], project@, sl) && x == share_name(manifests@[k]),
        decreases manifests.len() - i,
    {
        let m = &manifests[i];
        let is_share = str_eq(m.kind.as_str(), "SharedSpaceReference");
        let foreign = match &m.metadata.namespace {
            Some(n) => !str_eq(n.as_str(), project),
            None => true,
        };
        let pointed = match m.spec.text_at("endpointSlug") {
            Some(slug) => {
                let mut found = false;
                let mut k: usize = 0;
                while k < slugs.len()
                    invariant
                        k <= slugs@.len(),
                        views(slugs@) == sl,
                        found == exists|q: int| 0 <= q < k && sl[q] == slug@,
                    decreases slugs.len() - k,
                {
                    assert(sl[k as int] == slugs@[k as int]@);
                    if str_eq(slugs[k].as_str(), slug.as_str()) {
                        found = true;
                    }
                    k = k + 1;
                }
                found
            },
            None => false,
        };
        let ghost before = views(out@);
        let shares = is_share && foreign && pointed;
        assert(shares == shares_endpoint(manifests@[i as int], project@, sl));
        if shares {
            let mut t: Vec<char> = match &m.metadata.namespace {
                Some(n) => chars_of(n.as_str()),
                None => Vec::new(),
            };
            append_str(&mut t, "/");
            append_str(&mut t, m.metadata.name.as_str());
            let name = string_of(t.as_slice());
            assert(name@ == share_name(manifests@[i as int]));
            crate::federation::add_sorted(&mut out, &name);
        }
        assert forall|x: Seq<char>| #[trigger] views(out@).contains(x) <==> exists|k: int|
            0 <= k < i + 1 && shares_endpoint(#[trigger] manifests@[k], project@, sl) && x == share_name(manifests@[k]) by {
            if exists|k: int| 0 <= k < i + 1 && shares_endpoint(#[trigger] manifests@[k], project@, sl) && x == share_name(manifests@[k]) {
                let k = choose|k: int| 0 <= k < i + 1 && shares_endpoint(#[trigger] manifests@[k], project@, sl) && x == share_name(manifests@[k]);
                if k < i {
                    assert(before.contains(x));
                }
            }
        }
        i = i + 1;
    }
    out
}

// ---------------------------------------------------------------------------------------
// How long a deleted project's name stays reserved
// ---------------------------------------------------------------------------------------

/// The value of a text of decimal digits.
pub open spec fn digits_value(s: Seq<char>) -> nat
    decreases s.len(),
{
    if s.len() == 0 {
        0
    } else {
        10 * digits_value(s.drop_last()) + ((s.last() as nat) - ('0' as nat)) as nat
    }
}

/// `Value::as_u64` of a number kept as its text: the value of a non-empty run of digits that
/// fits in 64 bits.
pub open spec fn u64_of_text(s: Seq<char>) -> Option<u64> {
    if s.len() > 0 && (forall|i: int| 0 <= i < s.len() ==> is_digit(#[trigger] s[i])) && digits_value(s) <= u64::MAX {
        Some(digits_value(s) as u64)
    } else {
        None
    }
}

proof fn lemma_digits_grow(s: Seq<char>)
    requires
        forall|i: int| 0 <= i < s.len() ==> is_digit(#[trigger] s[i]),
    ensures
        forall|k: int| 0 <= k <= s.len() ==> digits_value(#[trigger] s.take(k)) <= digits_value(s),
    decreases s.len(),
{
    if s.len() > 0 {
        let t = s.drop_last();
        assert forall|i: int| 0 <= i < t.len() implies is_digit(#[trigger] t[i]) by {
            assert(t[i] == s[i]);
        }
        lemma_digits_grow(t);
        assert forall|k: int| 0 <= k <= s.len() implies digits_value(#[trigger] s.take(k)) <= digits_value(s) by {
            if k < s.len() {
                assert(s.take(k) =~= t.take(k));
            } else {
                assert(s.take(k) =~= s);
            }
        }
    }
}

/// The number a JSON number's text holds, when it is a `u64`.
pub fn u64_text(s: &str) -> (r: Option<u64>)
    ensures
        r == u64_of_text(s@),
{
    let c = chars_of(s);
    if c.len() == 0 {
        return None;
    }
    let mut k: usize = 0;
    while k < c.len()
        invariant
            k <= c@.len(),
            c@ == s@,
            forall|i: int| 0 <= i < k ==> is_digit(#[trigger] c@[i]),
        decreases c.len() - k,
    {
        if !crate::text::digit(c[k]) {
            assert(!is_digit(s@[k as int]));
            return None;
        }
        k = k + 1;
    }
    proof {
        lemma_digits_grow(c@);
    }
    let mut v: u64 = 0;
    let mut i: usize = 0;
    while i < c.len()
        invariant
            i <= c@.len(),
            c@ == s@,
            forall|q: int| 0 <= q < c@.len() ==> is_digit(#[trigger] c@[q]),
            forall|q: int| 0 <= q <= c@.len() ==> digits_value(#[trigger] c@.take(q)) <= digits_value(c@),
            v == digits_value(c@.take(i as int)),
        decreases c.len() - i,
    {
        assert(c@.take(i + 1).drop_last() =~= c@.take(i as int));
        assert(c@.take(i + 1).last() == c@[i as int]);
        let d = (c[i] as u32 - '0' as u32) as u64;
        assert(is_digit(c@[i as int]));
        let step = match v.checked_mul(10) {
            Some(x) => x.checked_add(d),
            None => None,
        };
        match step {
            Some(x) => {
                v = x;
            },
            None => {
                assert(digits_value(c@.take(i + 1)) > u64::MAX);
                assert(digits_value(c@) > u64::MAX);
                return None;
            },
        }
        i = i + 1;
    }
    assert(c@.take(c@.len() as int) =~= c@);
    Some(v)
}

/// The cooldown an organization sets, when it sets one as a whole number of days.
pub open spec fn cooldown_of(org: Envelope) -> Option<u64> {
    match get(org.spec, "projects"@) {
        Some(p) => match get(p, "nameCooldownDays"@) {
            Some(JsonValue::Number(n)) => u64_of_text(n@),
            _ => None,
        },
        None => None,
    }
}

/// The first organization that sets a cooldown.
pub open spec fn first_cooldown(orgs: Seq<Envelope>) -> Option<u64>
    decreases orgs.len(),
{
    if orgs.len() == 0 {
        None
    } else {
        match cooldown_of(orgs[0]) {
            Some(d) => Some(d),
            None => first_cooldown(orgs.drop_first()),
        }
    }
}

/// How long a deleted project's name stays reserved: the first organization's setting, else
/// `default_days`.
pub fn cooldown_days(organizations: &Vec<Envelope>, default_days: u64) -> (d: u64)
    ensures
        d == match first_cooldown(organizations@) {
            Some(x) => x,
            None => default_days,
        },
{
    let mut i: usize = 0;
    assert(organizations@.subrange(0, organizations@.len() as int) =~= organizations@);
    while i < organizations.len()
        invariant
            i <= organizations@.len(),
            first_cooldown(organizations@) == first_cooldown(organizations@.subrange(i as int, organizations@.len() as int)),
        decreases organizations.len() - i,
    {
        let ghost rest = organizations@.subrange(i as int, organizations@.len() as int);
        assert(rest.drop_first() =~= organizations@.subrange(i + 1, organizations@.len() as int));
        assert(rest[0] == organizations@[i as int]);
        let found = match organizations[i].spec.get_member("projects") {
            Some(p) => match p.get_member("nameCooldownDays") {
                Some(JsonValue::Number(n)) => u64_text(n.as_str()),
                _ => None,
            },
            None => None,
        };
        if let Some(d) = found {
            return d;
        }
        i = i + 1;
    }
    default_days
}

// ---------------------------------------------------------------------------------------
// The files a new project is
// ---------------------------------------------------------------------------------------

pub open spec fn text_is(v: JsonValue, t: Seq<char>) -> bool {
    v matches JsonValue::Str(s) && s@ == t
}

/// A member `k` holding the text `t`.
pub open spec fn text_member(p: (String, JsonValue), k: Seq<char>, t: Seq<char>) -> bool {
    p.0@ == k && text_is(p.1, t)
}

/// A member `k` holding an object of the one member `inner` with the text `t`.
pub open spec fn single_member(p: (String, JsonValue), k: Seq<char>, inner: Seq<char>, t: Seq<char>) -> bool {
    &&& p.0@ == k
    &&& single_object(p.1, inner, t)
}

/// An object of the one member `inner` with the text `t`.
pub open spec fn single_object(v: JsonValue, inner: Seq<char>, t: Seq<char>) -> bool {
    v matches JsonValue::Object(o) && o@.len() == 1 && text_member(o@[0], inner, t)
}

/// A text that says something: not empty once trimmed.
pub open spec fn said(t: Option<String>) -> bool {
    t matches Some(x) && trimmed(x@).len() > 0
}

/// The metadata of a new project: its name, the organization's namespace, and the display name
/// and description the request gives, when they say something.
pub open spec fn project_metadata(md: JsonValue, name: Seq<char>, request: OpenProject) -> bool {
    md matches JsonValue::Object(x) && {
        let l = if said(request.display_name) { 1int } else { 0int };
        let a = if said(request.description) { 1int } else { 0int };
        &&& x@.len() == 2 + l + a
        &&& text_member(x@[0], "name"@, name)
        &&& text_member(x@[1], "namespace"@, org_namespace())
        &&& said(request.display_name) ==> single_member(
            x@[2],
            "labels"@,
            "joinedcontext.com/display-name"@,
            request.display_name->0@,
        )
        &&& said(request.description) ==> single_member(
            x@[2 + l],
            "annotations"@,
            "joinedcontext.com/description"@,
            request.description->0@,
        )
    }
}

/// The manifest of a new project of the organization.
pub open spec fn project_manifest(p: JsonValue, name: Seq<char>, request: OpenProject, organization: Seq<char>) -> bool {
    p matches JsonValue::Object(m) && {
        &&& m@.len() == 4
        &&& text_member(m@[0], "apiVersion"@, "joinedcontext.com/v1alpha1"@)
        &&& text_member(m@[1], "kind"@, "Project"@)
        &&& m@[2].0@ == "metadata"@ && project_metadata(m@[2].1, name, request)
        &&& m@[3].0@ == "spec"@
        &&& m@[3].1 matches JsonValue::Object(sp) && sp@.len() == 1 && single_member(
            sp@[0],
            "organizationRef"@,
            "name"@,
            organization,
        )
    }
}

/// Who a binding names for the opener: their e-mail, else their username.
pub open spec fn opener(identity: Identity) -> Seq<char> {
    match identity.email {
        Some(e) => e@,
        None => identity.username@,
    }
}

/// A list of the one subject naming the user `who`.
pub open spec fn one_subject(v: JsonValue, who: Seq<char>) -> bool {
    v matches JsonValue::Array(subjects) && subjects@.len() == 1 && single_object(subjects@[0], "user"@, who)
}

/// The binding that makes the opener the steward of the new project and of nothing else.
pub open spec fn creator_binding(b: JsonValue, name: Seq<char>, who: Seq<char>) -> bool {
    b matches JsonValue::Object(m) && {
        &&& m@.len() == 4
        &&& text_member(m@[0], "apiVersion"@, "joinedcontext.com/v1alpha1"@)
        &&& text_member(m@[1], "kind"@, "RoleBinding"@)
        &&& m@[2].0@ == "metadata"@
        &&& m@[2].1 matches JsonValue::Object(md) && md@.len() == 2 && text_member(
            md@[0],
            "name"@,
            name + "-creator"@,
        ) && text_member(md@[1], "namespace"@, org_namespace())
        &&& m@[3].0@ == "spec"@
        &&& m@[3].1 matches JsonValue::Object(sp) && sp@.len() == 3 && sp@[0].0@ == "subjects"@
            && one_subject(sp@[0].1, who) && text_member(sp@[1], "role"@, "steward"@) && single_member(
            sp@[2],
            "scope"@,
            "project"@,
            name,
        )
    }
}

fn text_value(s: &str) -> (v: JsonValue)
    ensures
        text_is(v, s@),
{
    let c = chars_of(s);
    JsonValue::Str(string_of(c.as_slice()))
}

fn key(s: &str) -> (k: String)
    ensures
        k@ == s@,
{
    let c = chars_of(s);
    string_of(c.as_slice())
}

fn single(k: &str, inner: &str, t: &str) -> (p: (String, JsonValue))
    ensures
        single_member(p, k@, inner@, t@),
{
    let mut o: Vec<(String, JsonValue)> = Vec::new();
    o.push((key(inner), text_value(t)));
    (key(k), JsonValue::Object(o))
}

fn says(t: &Option<String>) -> (b: bool)
    ensures
        b == said(*t),
{
    match t {
        Some(x) => {
            let c = chars_of(x.as_str());
            trim_chars(c.as_slice()).len() > 0
        },
        None => false,
    }
}

/// The two files a new project is, as the paths they are written to and the manifests they
/// hold: the project's manifest, and the binding that makes its opener its steward and nothing
/// else. `organization` is the name of the organization's own manifest; without one there is
/// nothing a project could belong to.
pub fn open_project_files(
    organization: Option<&str>,
    identity: &Identity,
    request: &OpenProject,
    name: &str,
) -> (r: Result<Vec<(String, JsonValue)>, ApiError>)
    ensures
        organization is None ==> (r matches Err(ApiError::Unavailable(m))
            && m@ == "the organization's own manifest is not in the mirror yet; a project belongs to one (PF-66)"@),
        organization is Some ==> (r matches Ok(files) && files@.len() == 2
            && files@[0].0@ == "projects/"@ + name@ + "/project.yaml"@
            && project_manifest(files@[0].1, name@, *request, organization->0@)
            && files@[1].0@ == "users/assignments/"@ + name@ + "-creator.yaml"@
            && creator_binding(files@[1].1, name@, opener(*identity))),
{
    let org = match organization {
        Some(o) => o,
        None => {
            return Err(ApiError::Unavailable(key(
                "the organization's own manifest is not in the mirror yet; a project belongs to one (PF-66)",
            )));
        },
    };
    let mut metadata: Vec<(String, JsonValue)> = Vec::new();
    metadata.push((key("name"), text_value(name)));
    metadata.push((key("namespace"), text_value("org")));
    proof {
        reveal_strlit("org");
    }
    if says(&request.display_name) {
        let title = match &request.display_name {
            Some(t) => t.as_str(),
            None => "",
        };
        metadata.push(single("labels", "joinedcontext.com/display-name", title));
    }
    if says(&request.description) {
        let about = match &request.description {
            Some(t) => t.as_str(),
            None => "",
        };
        metadata.push(single("annotations", "joinedcontext.com/description", about));
    }
    let mut spec: Vec<(String, JsonValue)> = Vec::new();
    spec.push(single("organizationRef", "name", org));
    let mut project: Vec<(String, JsonValue)> = Vec::new();
    project.push((key("apiVersion"), text_value("joinedcontext.com/v1alpha1")));
    project.push((key("kind"), text_value("Project")));
    project.push((key("metadata"), JsonValue::Object(metadata)));
    project.push((key("spec"), JsonValue::Object(spec)));

    let who = match &identity.email {
        Some(e) => e.clone(),
        None => identity.username.clone(),
    };
    let mut binding_name = chars_of(name);
    append_str(&mut binding_name, "-creator");
    let mut bmeta: Vec<(String, JsonValue)> = Vec::new();
    bmeta.push((key("name"), JsonValue::Str(string_of(binding_name.as_slice()))));
    bmeta.push((key("namespace"), text_value("org")));
    let mut subject: Vec<(String, JsonValue)> = Vec::new();
    subject.push((key("user"), JsonValue::Str(who)));
    let mut subjects: Vec<JsonValue> = Vec::new();
    subjects.push(JsonValue::Object(subject));
    let mut bspec: Vec<(String, JsonValue)> = Vec::new();
    bspec.push((key("subjects"), JsonValue::Array(subjects)));
    bspec.push((key("role"), text_value("steward")));
    bspec.push(single("scope", "project", name));
    let mut binding: Vec<(String, JsonValue)> = Vec::new();
    binding.push((key("apiVersion"), text_value("joinedcontext.com/v1alpha1")));
    binding.push((key("kind"), text_value("RoleBinding")));
    binding.push((key("metadata"), JsonValue::Object(bmeta)));
    binding.push((key("spec"), JsonValue::Object(bspec)));

    let mut project_path = chars_of("projects/");
    append_str(&mut project_path, name);
    append_str(&mut project_path, "/project.yaml");
    let mut binding_path = chars_of("users/assignments/");
    append_str(&mut binding_path, name);
    append_str(&mut binding_path, "-creator.yaml");
    let mut files: Vec<(String, JsonValue)> = Vec::new();
    files.push((string_of(project_path.as_slice()), JsonValue::Object(project)));
    files.push((string_of(binding_path.as_slice()), JsonValue::Object(binding)));
    Ok(files)
}

} // verus!

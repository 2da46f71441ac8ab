//! Sharing a remote item by link.

use vstd::prelude::*;
use vstd::string::StringExecFns;

use crate::api::http::{check_status, failure_of, FailureTexts, FailureTextsView, GRAPH_BASE};
use crate::queue_model::lemma_filter_push_step;
use crate::text::{
    blank, eq_ignore_ascii_case, is_blank, opt_view, owned, same_ignoring_case, str_eq, trim,
    trimmed,
};

verus! {

/// What a link allows.
#[derive(Clone, Copy, Debug, PartialEq, Eq, Structural)]
pub enum LinkType {
    View,
    Edit,
    Embed,
}

/// Who a link works for.
#[derive(Clone, Copy, Debug, PartialEq, Eq, Structural)]
pub enum LinkScope {
    Anonymous,
    Organization,
    Users,
}

/// What kinds of link an account can create.
#[derive(Debug, PartialEq, Eq)]
pub struct ShareCapabilities {
    pub drive_type: Option<String>,
    pub can_embed_link: bool,
    pub can_org_scope_link: bool,
    pub can_password: bool,
}

/// A link that was created.
#[derive(Debug, PartialEq, Eq)]
pub struct ShareLinkResult {
    pub link_type: LinkType,
    pub scope: LinkScope,
    pub web_url: Option<String>,
    pub web_html: Option<String>,
    pub permission_id: Option<String>,
    pub share_id: Option<String>,
    pub roles: Vec<String>,
    pub password_protected: bool,
}

impl ShareCapabilities {
    /// The capabilities of a drive of the given type: a personal drive can
    /// create embed links and protect links by password, every other drive
    /// can create links for the organisation.
    pub fn from_drive_type(drive_type: &str) -> (r: Self)
        ensures
            opt_view(r.drive_type) == Some(drive_type@),
            r.can_embed_link == same_ignoring_case(drive_type@, "personal"@),
            r.can_org_scope_link == !same_ignoring_case(drive_type@, "personal"@),
            r.can_password == same_ignoring_case(drive_type@, "personal"@),
    {
        let is_personal = eq_ignore_ascii_case(drive_type, "personal");
        ShareCapabilities {
            drive_type: Some(owned(drive_type)),
            can_embed_link: is_personal,
            can_org_scope_link: !is_personal,
            can_password: is_personal,
        }
    }
}

impl LinkType {
    /// The name of the link type on the remote side.
    pub open spec fn graph_text(self) -> Seq<char> {
        match self {
            LinkType::View => "view"@,
            LinkType::Edit => "edit"@,
            LinkType::Embed => "embed"@,
        }
    }

    /// The link type that a name stands for.
    pub open spec fn of_graph_text(value: Seq<char>) -> Option<LinkType> {
        if value == "view"@ {
            Some(LinkType::View)
        } else if value == "edit"@ {
            Some(LinkType::Edit)
        } else if value == "embed"@ {
            Some(LinkType::Embed)
        } else {
            None
        }
    }

    /// The name of the link type on the remote side.
    pub fn as_graph_str(&self) -> (r: &'static str)
        ensures
            r@ == self.graph_text(),
    {
        match self {
            LinkType::View => "view",
            LinkType::Edit => "edit",
            LinkType::Embed => "embed",
        }
    }

    /// Reads a link type from its name on the remote side.
    pub fn from_graph_str(value: &str) -> (r: Option<Self>)
        ensures
            r == Self::of_graph_text(value@),
    {
        if str_eq(value, "view") {
            Some(LinkType::View)
        } else if str_eq(value, "edit") {
            Some(LinkType::Edit)
        } else if str_eq(value, "embed") {
            Some(LinkType::Embed)
        } else {
            None
        }
    }
}

impl LinkScope {
    /// The name of the scope on the remote side.
    pub open spec fn graph_text(self) -> Seq<char> {
        match self {
            LinkScope::Anonymous => "anonymous"@,
            LinkScope::Organization => "organization"@,
            LinkScope::Users => "users"@,
        }
    }

    /// The scope that a name stands for.
    pub open spec fn of_graph_text(value: Seq<char>) -> Option<LinkScope> {
        if value == "anonymous"@ {
            Some(LinkScope::Anonymous)
        } else if value == "organization"@ {
            Some(LinkScope::Organization)
        } else if value == "users"@ {
            Some(LinkScope::Users)
        } else {
            None
        }
    }

    /// The name of the scope on the remote side.
    pub fn as_graph_str(&self) -> (r: &'static str)
        ensures
            r@ == self.graph_text(),
    {
        match self {
            LinkScope::Anonymous => "anonymous",
            LinkScope::Organization => "organization",
            LinkScope::Users => "users",
        }
    }

    /// Reads a scope from its name on the remote side.
    pub fn from_graph_str(value: &str) -> (r: Option<Self>)
        ensures
            r == Self::of_graph_text(value@),
    {
        if str_eq(value, "anonymous") {
            Some(LinkScope::Anonymous)
        } else if str_eq(value, "organization") {
            Some(LinkScope::Organization)
        } else if str_eq(value, "users") {
            Some(LinkScope::Users)
        } else {
            None
        }
    }
}

/// A name read back is the type it was written for, and likewise for
/// scopes.
pub proof fn lemma_graph_names_round_trip(link_type: LinkType, scope: LinkScope)
    ensures
        LinkType::of_graph_text(link_type.graph_text()) == Some(link_type),
        LinkScope::of_graph_text(scope.graph_text()) == Some(scope),
{
    reveal_strlit("view");
    reveal_strlit("edit");
    reveal_strlit("embed");
    reveal_strlit("anonymous");
    reveal_strlit("organization");
    reveal_strlit("users");
    assert("view"@.len() == 4 && "edit"@.len() == 4 && "embed"@.len() == 5);
    assert("view"@[0] == 'v' && "edit"@[0] == 'e');
    assert("anonymous"@.len() == 9 && "organization"@.len() == 12 && "users"@.len() == 5);
}

/// One recipient of a link.
#[derive(Debug, PartialEq, Eq)]
pub struct RecipientDto {
    pub email: String,
}

/// The body of the request that creates a link.
#[derive(Debug, PartialEq, Eq)]
pub struct CreateLinkRequest {
    pub link_type: String,
    pub scope: String,
    pub password: Option<String>,
    pub expiration_date_time: Option<String>,
    pub retain_inherited_permissions: Option<bool>,
    pub recipients: Option<Vec<RecipientDto>>,
}

/// The predicate "is not blank".
pub open spec fn not_blank() -> spec_fn(Seq<char>) -> bool {
    |s: Seq<char>| !is_blank(s)
}

/// The addresses that a link is sent to: those given that are not blank,
/// without the white space around them.
pub open spec fn cleaned_recipients(emails: Seq<Seq<char>>) -> Seq<Seq<char>> {
    emails.filter(not_blank()).map_values(|s: Seq<char>| trimmed(s))
}

/// The addresses of a list of recipients.
pub open spec fn recipient_view(list: Seq<RecipientDto>) -> Seq<Seq<char>> {
    Seq::new(list.len(), |i: int| list[i].email@)
}

fn clean_recipients(emails: &Vec<String>) -> (r: Vec<RecipientDto>)
    ensures
        recipient_view(r@) == cleaned_recipients(emails.deep_view()),
{
    let ghost all = emails.deep_view();
    let mut r: Vec<RecipientDto> = Vec::new();
    let mut i: usize = 0;
    proof {
        reveal_with_fuel(Seq::filter, 1);
        assert(all.take(0) =~= Seq::<Seq<char>>::empty());
        assert(recipient_view(r@) =~= cleaned_recipients(all.take(0)));
    }
    while i < emails.len()
        invariant
            i <= emails.len(),
            all == emails.deep_view(),
            recipient_view(r@) == cleaned_recipients(all.take(i as int)),
        decreases emails.len() - i,
    {
        let ghost before = recipient_view(r@);
        proof {
            assert(all.take(i + 1) =~= all.take(i as int).push(all[i as int]));
            lemma_filter_push_step(all.take(i as int), all[i as int], not_blank());
            assert(all[i as int] == emails@[i as int]@);
        }
        if !blank(emails[i].as_str()) {
            r.push(RecipientDto { email: owned(trim(emails[i].as_str())) });
            proof {
                assert(recipient_view(r@) =~= before.push(trimmed(all[i as int])));
                assert(all.take(i as int).filter(not_blank()).push(all[i as int]).map_values(
                    |s: Seq<char>| trimmed(s),
                ) =~= before.push(trimmed(all[i as int])));
            }
        }
        i += 1;
    }
    proof {
        assert(all.take(i as int) =~= all);
    }
    r
}

impl CreateLinkRequest {
    /// The body that creates a link of the given type and scope. Blank
    /// recipients are dropped and the others trimmed.
    pub fn new(
        link_type: LinkType,
        scope: LinkScope,
        password: Option<String>,
        expiration_date_time: Option<String>,
        retain_inherited_permissions: Option<bool>,
        recipients: Option<Vec<String>>,
    ) -> (r: Self)
        ensures
            r.link_type@ == link_type.graph_text(),
            r.scope@ == scope.graph_text(),
            r.password == password,
            r.expiration_date_time == expiration_date_time,
            r.retain_inherited_permissions == retain_inherited_permissions,
            r.recipients is Some == recipients is Some,
            recipients is Some ==> recipient_view(r.recipients->0@) == cleaned_recipients(
                recipients->0.deep_view(),
            ),
    {
        CreateLinkRequest {
            link_type: owned(link_type.as_graph_str()),
            scope: owned(scope.as_graph_str()),
            password,
            expiration_date_time,
            retain_inherited_permissions,
            recipients: match recipients {
                Some(list) => Some(clean_recipients(&list)),
                None => None,
            },
        }
    }
}

/// Why a link is refused before it is asked for: a blank item id, an
/// embed link or an organisation link that the account cannot create, an
/// empty password, a password that the account cannot set, a link for
/// named users without recipients, or recipients for any other link.
pub open spec fn link_rejection(
    item_id: Seq<char>,
    link_type: LinkType,
    scope: LinkScope,
    password: Option<Seq<char>>,
    recipients: Option<Seq<Seq<char>>>,
    caps: ShareCapabilities,
) -> Option<Seq<char>> {
    if is_blank(item_id) {
        Some("drive item id is required"@)
    } else if link_type == LinkType::Embed && !caps.can_embed_link {
        Some("当前账户类型不支持嵌入链接（embed）"@)
    } else if scope == LinkScope::Organization && !caps.can_org_scope_link {
        Some("当前账户类型不支持组织内链接"@)
    } else if password is Some && password->0.len() == 0 {
        Some("密码不能为空字符串"@)
    } else if password is Some && !caps.can_password {
        Some("仅个人版 OneDrive 支持密码保护链接"@)
    } else if scope == LinkScope::Users && (recipients is None || recipients->0.len() == 0) {
        Some("指定人员链接需要提供至少一个收件人"@)
    } else if scope != LinkScope::Users && recipients is Some {
        Some("只有 scope=users 时才允许指定收件人"@)
    } else {
        None
    }
}

/// Refuses a blank item id.
pub fn check_item_id(item_id: &str) -> (r: Result<(), String>)
    ensures
        if is_blank(item_id@) {
            r is Err && r->Err_0@ == "drive item id is required"@
        } else {
            r is Ok
        },
{
    if blank(item_id) {
        return Err(owned("drive item id is required"));
    }
    Ok(())
}

/// The address under which a link for item `item_id` is created.
pub open spec fn create_link_url(item_id: Seq<char>) -> Seq<char> {
    GRAPH_BASE@ + "/me/drive/items/"@ + item_id + "/createLink"@
}

/// A link request that is ready to be sent.
#[derive(Debug, PartialEq, Eq)]
pub struct LinkPlan {
    /// The address to post to.
    pub url: String,
    /// The body of the request.
    pub body: CreateLinkRequest,
}

/// Checks a link request against the capabilities of the account and
/// prepares it.
pub fn link_request(
    item_id: &str,
    link_type: LinkType,
    scope: LinkScope,
    password: Option<String>,
    expiration_date_time: Option<String>,
    retain_inherited_permissions: Option<bool>,
    recipients: Option<Vec<String>>,
    caps: &ShareCapabilities,
) -> (r: Result<LinkPlan, String>)
    ensures
        match link_rejection(
            item_id@,
            link_type,
            scope,
            opt_view(password),
            match recipients {
                Some(list) => Some(list.deep_view()),
                None => None,
            },
            *caps,
        ) {
            Some(text) => r is Err && r->Err_0@ == text,
            None => {
                &&& r is Ok
                &&& r->Ok_0.url@ == create_link_url(item_id@)
                &&& r->Ok_0.body.link_type@ == link_type.graph_text()
                &&& r->Ok_0.body.scope@ == scope.graph_text()
                &&& r->Ok_0.body.password == password
                &&& r->Ok_0.body.expiration_date_time == expiration_date_time
                &&& r->Ok_0.body.retain_inherited_permissions == retain_inherited_permissions
                &&& r->Ok_0.body.recipients is Some == recipients is Some
                &&& recipients is Some ==> recipient_view(r->Ok_0.body.recipients->0@)
                    == cleaned_recipients(recipients->0.deep_view())
            },
        },
{
    if blank(item_id) {
        return Err(owned("drive item id is required"));
    }
    if link_type == LinkType::Embed && !caps.can_embed_link {
        return Err(owned("当前账户类型不支持嵌入链接（embed）"));
    }
    if scope == LinkScope::Organization && !caps.can_org_scope_link {
        return Err(owned("当前账户类型不支持组织内链接"));
    }
    let empty_password = match &password {
        Some(p) => p.as_str().is_empty(),
        None => false,
    };
    if empty_password {
        return Err(owned("密码不能为空字符串"));
    }
    if password.is_some() && !caps.can_password {
        return Err(owned("仅个人版 OneDrive 支持密码保护链接"));
    }
    if scope == LinkScope::Users {
        let none_given = match &recipients {
            Some(list) => list.len() == 0,
            None => true,
        };
        if none_given {
            return Err(owned("指定人员链接需要提供至少一个收件人"));
        }
    } else if recipients.is_some() {
        return Err(owned("只有 scope=users 时才允许指定收件人"));
    }
    Ok(
        LinkPlan {
            url: owned(GRAPH_BASE).concat("/me/drive/items/").concat(item_id).concat(
                "/createLink",
            ),
            body: CreateLinkRequest::new(
                link_type,
                scope,
                password,
                expiration_date_time,
                retain_inherited_permissions,
                recipients,
            ),
        },
    )
}

/// The link part of a permission.
#[derive(Debug, PartialEq, Eq)]
pub struct LinkDto {
    pub link_type: Option<String>,
    pub scope: Option<String>,
    pub web_url: Option<String>,
    pub web_html: Option<String>,
}

/// A permission as the remote side describes it.
#[derive(Debug, PartialEq, Eq)]
pub struct PermissionDto {
    pub id: Option<String>,
    pub roles: Option<Vec<String>>,
    pub share_id: Option<String>,
    pub has_password: Option<bool>,
    pub link: Option<LinkDto>,
}

/// The link type that a permission names, if it names one that is known.
pub open spec fn named_type(link: LinkDto) -> Option<LinkType> {
    match link.link_type {
        Some(t) => LinkType::of_graph_text(t@),
        None => None,
    }
}

/// The scope that a permission names, if it names one that is known.
pub open spec fn named_scope(link: LinkDto) -> Option<LinkScope> {
    match link.scope {
        Some(s) => LinkScope::of_graph_text(s@),
        None => None,
    }
}

/// Reads the created link out of the permission that the remote side
/// answers with. A permission without link, with an unknown link type or
/// with an unknown scope is an error. Missing roles are read as none, a
/// missing password flag as no password.
pub fn share_link_from(value: PermissionDto) -> (r: Result<ShareLinkResult, String>)
    ensures
        match value.link {
            None => r is Err && r->Err_0@ == "missing link object in createLink response"@,
            Some(link) => if named_type(link) is None {
                r is Err && r->Err_0@ == "unexpected link type in response"@
            } else if named_scope(link) is None {
                r is Err && r->Err_0@ == "unexpected scope in response"@
            } else {
                &&& r is Ok
                &&& r->Ok_0.link_type == named_type(link)->0
                &&& r->Ok_0.scope == named_scope(link)->0
                &&& r->Ok_0.web_url == link.web_url
                &&& r->Ok_0.web_html == link.web_html
                &&& r->Ok_0.permission_id == value.id
                &&& r->Ok_0.share_id == value.share_id
                &&& r->Ok_0.roles@ == match value.roles {
                    Some(list) => list@,
                    None => Seq::<String>::empty(),
                }
                &&& r->Ok_0.password_protected == match value.has_password {
                    Some(flag) => flag,
                    None => false,
                }
            },
        },
{
    let link = match value.link {
        Some(link) => link,
        None => {
            return Err(owned("missing link object in createLink response"));
        },
    };
    let link_type = match &link.link_type {
        Some(t) => LinkType::from_graph_str(t.as_str()),
        None => None,
    };
    let link_type = match link_type {
        Some(t) => t,
        None => {
            return Err(owned("unexpected link type in response"));
        },
    };
    let scope = match &link.scope {
        Some(s) => LinkScope::from_graph_str(s.as_str()),
        None => None,
    };
    let scope = match scope {
        Some(s) => s,
        None => {
            return Err(owned("unexpected scope in response"));
        },
    };
    Ok(
        ShareLinkResult {
            link_type,
            scope,
            web_url: link.web_url,
            web_html: link.web_html,
            permission_id: value.id,
            share_id: value.share_id,
            roles: match value.roles {
                Some(list) => list,
                None => Vec::new(),
            },
            password_protected: match value.has_password {
                Some(flag) => flag,
                None => false,
            },
        },
    )
}

impl TryFrom<PermissionDto> for ShareLinkResult {
    type Error = String;

    fn try_from(value: PermissionDto) -> (r: Result<ShareLinkResult, String>)
        ensures
            match value.link {
                None => r is Err && r->Err_0@ == "missing link object in createLink response"@,
                Some(link) => if named_type(link) is None {
                    r is Err && r->Err_0@ == "unexpected link type in response"@
                } else if named_scope(link) is None {
                    r is Err && r->Err_0@ == "unexpected scope in response"@
                } else {
                    &&& r is Ok
                    &&& r->Ok_0.link_type == named_type(link)->0
                    &&& r->Ok_0.scope == named_scope(link)->0
                    &&& r->Ok_0.web_url == link.web_url
                    &&& r->Ok_0.web_html == link.web_html
                    &&& r->Ok_0.permission_id == value.id
                    &&& r->Ok_0.share_id == value.share_id
                    &&& r->Ok_0.roles@ == match value.roles {
                        Some(list) => list@,
                        None => Seq::<String>::empty(),
                    }
                    &&& r->Ok_0.password_protected == match value.has_password {
                        Some(flag) => flag,
                        None => false,
                    }
                },
            },
    {
        share_link_from(value)
    }
}

impl vstd::std_specs::convert::TryFromSpecImpl<PermissionDto> for ShareLinkResult {
    open spec fn obeys_try_from_spec() -> bool {
        false
    }

    open spec fn try_from_spec(value: PermissionDto) -> Result<ShareLinkResult, String> {
        arbitrary()
    }
}

/// The texts with which the creation of a link reports its failures.
pub open spec fn share_texts() -> FailureTextsView {
    FailureTextsView {
        forbidden: Some("Graph API 拒绝了分享请求，可能已被租户策略禁用"@),
        not_found: Some("未找到指定的项目，可能已被移动或删除"@),
        precondition: None,
        failure_prefix: "graph api returned HTTP "@,
        failure_suffix: " while creating share link"@,
    }
}

/// Judges the answer to the creation of a link by its status.
pub fn share_outcome(code: u16, shown: &str) -> (r: Result<(), String>)
    ensures
        match failure_of(code, shown@, share_texts()) {
            Some(text) => r is Err && r->Err_0@ == text,
            None => r is Ok,
        },
{
    check_status(
        code,
        shown,
        FailureTexts {
            forbidden: Some(owned("Graph API 拒绝了分享请求，可能已被租户策略禁用")),
            not_found: Some(owned("未找到指定的项目，可能已被移动或删除")),
            precondition: None,
            failure_prefix: owned("graph api returned HTTP "),
            failure_suffix: owned(" while creating share link"),
        },
    )
}

} // verus!

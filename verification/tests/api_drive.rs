use skydrivex::api::drive::delete::{delete_outcome, delete_request};
use skydrivex::api::drive::details::{
    details_outcome, details_url, DriveFileFacetDto, DriveFolderFacetDto, DriveItemDetailsDto,
    FileSystemInfoDto, ParentReferenceDto,
};
use skydrivex::api::drive::download::{
    check_destination, check_download_inputs, content_outcome, download_plan, download_result,
    metadata_outcome, metadata_url, sanitize_file_name, DownloadMetadata,
};
use skydrivex::api::drive::info::{
    drive_info, overview_outcome, DriveInfoDto, DriveQuotaDto, IdentityDto, IdentitySetDto,
};
use skydrivex::api::drive::list::{
    build_children_url, children_outcome, children_request_url, page_from_response,
    DriveChildrenResponse, DriveFileFacet, DriveFolderFacet, DriveItemDto, ThumbnailDto,
    ThumbnailSetDto,
};
use skydrivex::api::drive::move_item::{
    move_outcome, move_request, moved_item, MoveRequest, MoveResponse, ParentRefDto,
};
use skydrivex::api::drive::share::{
    check_item_id, link_request, share_link_from, share_outcome, CreateLinkRequest, LinkDto,
    LinkScope, LinkType, PermissionDto, ShareCapabilities, ShareLinkResult,
};
use skydrivex::api::drive::upload::{
    cancel_upload_session, parse_upload_session_response, session_create_outcome,
    session_query_outcome, session_request, session_status, small_upload_request,
    upload_outcome, DriveItemUploadResponse, UploadFileFacet, UploadSessionResponse,
};
use skydrivex::api::http::{check_plain_status, check_success, is_success, GRAPH_BASE};
use skydrivex::models::{DriveItemDetails, DriveItemSummary, DriveOwner, DriveQuota};

const QUERY: &str =
    "?$select=id,name,size,lastModifiedDateTime,folder,file&$expand=thumbnails($select=small,medium)";

fn thumb(url: Option<&str>) -> Option<ThumbnailDto> {
    Some(ThumbnailDto { url: url.map(|u| u.to_string()) })
}

#[test]
fn success_is_the_range_200_to_299() {
    assert!(!is_success(199));
    assert!(is_success(200));
    assert!(is_success(299));
    assert!(!is_success(300));
    assert_eq!(check_success(204, "204", "a ", " b"), Ok(()));
    assert_eq!(check_success(500, "500 X", "a ", " b"), Err("a 500 X b".to_string()));
    assert_eq!(
        check_plain_status(401, "401", "a ", ""),
        Err("access token rejected by Graph API; please sign in again".to_string())
    );
    assert_eq!(check_plain_status(404, "404 Not Found", "a ", "!"), Err("a 404 Not Found!".to_string()));
}

#[test]
fn file_names_are_sanitized() {
    assert_eq!(sanitize_file_name("report.pdf"), "report.pdf");
    assert_eq!(sanitize_file_name("  a/b\\c:d*e?f\"g<h>i|j  "), "a_b_c_d_e_f_g_h_i_j");
    assert_eq!(sanitize_file_name(""), "download.bin");
    assert_eq!(sanitize_file_name("   "), "download.bin");
    assert_eq!(sanitize_file_name("."), "download.bin");
    assert_eq!(sanitize_file_name(" .. "), "download.bin");
    assert_eq!(sanitize_file_name("..."), "...");
    assert_eq!(sanitize_file_name("/"), "_");
    assert_eq!(sanitize_file_name("\u{6587}\u{4ef6}?.txt"), "\u{6587}\u{4ef6}_.txt");
    assert_eq!(sanitize_file_name("a  b"), "a  b");
}

#[test]
fn download_inputs_are_checked() {
    assert_eq!(check_download_inputs("i", "/d"), Ok(()));
    assert_eq!(check_download_inputs(" ", "/d"), Err("drive item id is required".to_string()));
    assert_eq!(check_download_inputs("i", ""), Err("target directory is required".to_string()));
    assert_eq!(
        metadata_url("abc"),
        format!("{GRAPH_BASE}/me/drive/items/abc?$select=name,size,file,@microsoft.graph.downloadUrl")
    );
}

#[test]
fn download_is_planned_from_the_metadata() {
    let meta = DownloadMetadata {
        name: Some(" a:b.txt ".to_string()),
        size: Some(9),
        is_file: true,
        download_url: Some("https://cdn/x".to_string()),
    };
    let plan = download_plan("id1", "tok", meta).unwrap();
    assert_eq!(plan.endpoint, "https://cdn/x");
    assert_eq!(plan.bearer_token, None);
    assert_eq!(plan.file_name, "a_b.txt");
    assert_eq!(plan.expected_size, Some(9));
    let meta = DownloadMetadata { name: None, size: None, is_file: true, download_url: None };
    let plan = download_plan("id1", "tok", meta).unwrap();
    assert_eq!(plan.endpoint, format!("{GRAPH_BASE}/me/drive/items/id1/content"));
    assert_eq!(plan.bearer_token.as_deref(), Some("tok"));
    assert_eq!(plan.file_name, "download.bin");
    let result = download_result(&plan, "/dl/download.bin".to_string(), 77);
    assert_eq!(result.file_name, "download.bin");
    assert_eq!(result.saved_path, "/dl/download.bin");
    assert_eq!(result.bytes_downloaded, 77);
    assert_eq!(result.expected_size, None);
    let folder = DownloadMetadata { name: None, size: None, is_file: false, download_url: None };
    assert_eq!(
        download_plan("id1", "tok", folder),
        Err("选中的项目不是可下载的文件".to_string())
    );
}

#[test]
fn existing_destination_needs_overwrite() {
    assert_eq!(check_destination(false, false, "/d/f"), Ok(()));
    assert_eq!(check_destination(true, true, "/d/f"), Ok(()));
    assert_eq!(
        check_destination(true, false, "/d/f"),
        Err("文件已存在：/d/f（如需覆盖请设置 overwrite=true）".to_string())
    );
}

#[test]
fn download_statuses_are_judged() {
    assert_eq!(metadata_outcome(200, "200 OK"), Ok(()));
    assert_eq!(
        metadata_outcome(404, "404 Not Found"),
        Err("找不到指定的文件，可能已经被移动或删除".to_string())
    );
    assert_eq!(
        metadata_outcome(401, "401"),
        Err("access token rejected by Graph API; please sign in again".to_string())
    );
    assert_eq!(
        metadata_outcome(503, "503 Service Unavailable"),
        Err("graph api returned HTTP 503 Service Unavailable while fetching download info".to_string())
    );
    assert_eq!(content_outcome(206, "206"), Ok(()));
    assert_eq!(
        content_outcome(401, "401 Unauthorized"),
        Err("download endpoint returned HTTP 401 Unauthorized".to_string())
    );
}

#[test]
fn deletion_is_prepared_and_judged() {
    let request = delete_request("i1", Some("etag".to_string()), true).unwrap();
    assert_eq!(request.url, format!("{GRAPH_BASE}/me/drive/items/i1"));
    assert_eq!(request.if_match.as_deref(), Some("etag"));
    assert_eq!(request.prefer.as_deref(), Some("bypass-shared-lock,bypass-checked-out"));
    let request = delete_request("i1", Some("  ".to_string()), false).unwrap();
    assert_eq!(request.if_match, None);
    assert_eq!(request.prefer, None);
    assert_eq!(
        delete_request("", None, false).err(),
        Some("drive item id is required".to_string())
    );
    assert_eq!(delete_outcome(204, "204 No Content"), Ok(()));
    assert_eq!(
        delete_outcome(404, "404"),
        Err("找不到要删除的项目，可能已被移动或无权限".to_string())
    );
    assert_eq!(
        delete_outcome(412, "412"),
        Err("删除被拒绝：ETag 不匹配或被共享锁占用".to_string())
    );
    assert_eq!(
        delete_outcome(403, "403 Forbidden"),
        Err("graph api returned HTTP 403 Forbidden when deleting item".to_string())
    );
}

#[test]
fn details_are_read() {
    assert_eq!(
        details_url("i1").unwrap(),
        format!("{GRAPH_BASE}/me/drive/items/i1?$select=id,name,size,createdDateTime,lastModifiedDateTime,webUrl,eTag,cTag,file,folder,fileSystemInfo,parentReference,@microsoft.graph.downloadUrl")
    );
    assert_eq!(details_url("\t"), Err("drive item id is required".to_string()));
    let dto = DriveItemDetailsDto {
        id: "i".to_string(),
        name: None,
        size: Some(3),
        created_date_time: Some("c".to_string()),
        last_modified_date_time: Some("m".to_string()),
        e_tag: Some("e".to_string()),
        c_tag: None,
        web_url: Some("w".to_string()),
        download_url: None,
        file: Some(DriveFileFacetDto { mime_type: Some("text/plain".to_string()) }),
        folder: Some(DriveFolderFacetDto { child_count: Some(2) }),
        file_system_info: Some(FileSystemInfoDto {
            created_date_time: Some("fc".to_string()),
            last_modified_date_time: None,
        }),
        parent_reference: Some(ParentReferenceDto { path: Some("/drive/root:".to_string()) }),
    };
    let details = DriveItemDetails::from(dto);
    assert_eq!(details.name, "(未命名)");
    assert_eq!(details.mime_type.as_deref(), Some("text/plain"));
    assert!(details.is_folder);
    assert_eq!(details.child_count, Some(2));
    assert_eq!(details.created_at.as_deref(), Some("c"));
    assert_eq!(details.file_system_created_at.as_deref(), Some("fc"));
    assert_eq!(details.file_system_modified_at, None);
    assert_eq!(details.etag.as_deref(), Some("e"));
    assert_eq!(details.parent_path.as_deref(), Some("/drive/root:"));
    assert_eq!(
        details_outcome(404, "404"),
        Err("未找到指定的项目，可能已被移动或删除".to_string())
    );
    assert_eq!(
        details_outcome(500, "500"),
        Err("graph api returned HTTP 500 while fetching item details".to_string())
    );
}

#[test]
fn owner_is_the_user_or_else_the_group() {
    let user = IdentityDto {
        id: Some("u".to_string()),
        display_name: Some("User".to_string()),
        user_principal_name: None,
    };
    let group = IdentityDto { id: Some("g".to_string()), display_name: None, user_principal_name: None };
    let both = IdentitySetDto {
        user: Some(IdentityDto { id: user.id.clone(), display_name: user.display_name.clone(), user_principal_name: None }),
        group: Some(IdentityDto { id: group.id.clone(), display_name: None, user_principal_name: None }),
    };
    assert_eq!(DriveOwner::from_identity_set(both).unwrap().id.as_deref(), Some("u"));
    let only_group = IdentitySetDto { user: None, group: Some(group) };
    assert_eq!(DriveOwner::from_identity_set(only_group).unwrap().id.as_deref(), Some("g"));
    assert_eq!(DriveOwner::from_identity_set(IdentitySetDto { user: None, group: None }), None);
    let info = drive_info(DriveInfoDto {
        id: Some("d".to_string()),
        drive_type: Some("personal".to_string()),
        owner: Some(IdentitySetDto { user: Some(user), group: None }),
        quota: Some(DriveQuotaDto {
            total: Some(10),
            used: Some(4),
            remaining: Some(6),
            deleted: None,
            state: Some("normal".to_string()),
        }),
    });
    assert_eq!(info.owner.unwrap().display_name.as_deref(), Some("User"));
    assert_eq!(
        info.quota,
        Some(DriveQuota {
            total: Some(10),
            used: Some(4),
            remaining: Some(6),
            deleted: None,
            state: Some("normal".to_string()),
        })
    );
    assert_eq!(
        overview_outcome(404, "404"),
        Err("OneDrive 不存在或尚未开通，请确认账号状态后重试".to_string())
    );
    assert_eq!(overview_outcome(200, "200"), Ok(()));
}

#[test]
fn best_thumbnail_is_the_smallest_with_an_address() {
    let set = ThumbnailSetDto { small: thumb(Some("s")), medium: thumb(Some("m")), large: None };
    assert_eq!(set.best_url().as_deref(), Some("s"));
    let set = ThumbnailSetDto { small: thumb(None), medium: thumb(Some("m")), large: thumb(Some("l")) };
    assert_eq!(set.best_url().as_deref(), Some("m"));
    let set = ThumbnailSetDto { small: None, medium: None, large: thumb(Some("l")) };
    assert_eq!(set.best_url().as_deref(), Some("l"));
    let set = ThumbnailSetDto { small: None, medium: thumb(None), large: None };
    assert_eq!(set.best_url(), None);
}

#[test]
fn listing_is_summarised() {
    let page = page_from_response(DriveChildrenResponse {
        value: vec![
            DriveItemDto {
                id: "1".to_string(),
                name: Some("docs".to_string()),
                size: None,
                last_modified_date_time: None,
                folder: Some(DriveFolderFacet { child_count: Some(3) }),
                file: None,
                thumbnails: None,
            },
            DriveItemDto {
                id: "2".to_string(),
                name: None,
                size: Some(8),
                last_modified_date_time: Some("t".to_string()),
                folder: None,
                file: Some(DriveFileFacet { mime_type: Some("image/png".to_string()) }),
                thumbnails: Some(vec![
                    ThumbnailSetDto { small: thumb(None), medium: None, large: None },
                    ThumbnailSetDto { small: None, medium: thumb(Some("m2")), large: None },
                    ThumbnailSetDto { small: thumb(Some("s3")), medium: None, large: None },
                ]),
            },
        ],
        next_link: Some("next".to_string()),
    });
    assert_eq!(page.next_link.as_deref(), Some("next"));
    assert_eq!(page.items.len(), 2);
    assert!(page.items[0].is_folder);
    assert_eq!(page.items[0].child_count, Some(3));
    assert_eq!(page.items[0].thumbnail_url, None);
    assert_eq!(page.items[1].name, "(未命名)");
    assert_eq!(page.items[1].mime_type.as_deref(), Some("image/png"));
    assert_eq!(page.items[1].thumbnail_url.as_deref(), Some("m2"));
    assert!(!page.items[1].is_folder);
    assert_eq!(page.clone().items, page.items);
}

#[test]
fn listing_address_is_built_from_the_path() {
    let root = format!("{GRAPH_BASE}/me/drive/root/children{QUERY}");
    assert_eq!(build_children_url(None), root);
    assert_eq!(build_children_url(Some("")), root);
    assert_eq!(build_children_url(Some("  ")), root);
    assert_eq!(build_children_url(Some("///")), root);
    assert_eq!(
        build_children_url(Some("/Documents//My Files/\u{00e9}t\u{00e9}.txt/")),
        format!("{GRAPH_BASE}/me/drive/root:/Documents/My%20Files/%C3%A9t%C3%A9%2Etxt:/children{QUERY}")
    );
    assert_eq!(
        build_children_url(Some("a-b_c~d")),
        format!("{GRAPH_BASE}/me/drive/root:/a%2Db%5Fc%7Ed:/children{QUERY}")
    );
    assert_eq!(
        children_request_url(Some("id".to_string()), Some("/p".to_string()), Some("L".to_string())),
        "L"
    );
    assert_eq!(
        children_request_url(Some("id".to_string()), Some("/p".to_string()), None),
        format!("{GRAPH_BASE}/me/drive/items/id/children{QUERY}")
    );
    assert_eq!(
        children_request_url(None, Some("/p".to_string()), None),
        format!("{GRAPH_BASE}/me/drive/root:/p:/children{QUERY}")
    );
    assert_eq!(children_request_url(None, None, None), root);
    assert_eq!(children_outcome(200, "200"), Ok(()));
    assert_eq!(children_outcome(500, "500 E"), Err("graph api returned HTTP 500 E".to_string()));
}

#[test]
fn move_is_prepared_and_judged() {
    let plan = move_request("i", Some("p".to_string()), Some("n".to_string())).unwrap();
    assert_eq!(plan.url, format!("{GRAPH_BASE}/me/drive/items/i"));
    assert_eq!(
        plan.body,
        MoveRequest {
            parent_reference: Some(ParentRefDto { id: "p".to_string() }),
            name: Some("n".to_string())
        }
    );
    assert_eq!(MoveRequest::new(None, None), MoveRequest { parent_reference: None, name: None });
    assert_eq!(
        move_request(" ", None, None).err(),
        Some("drive item id is required".to_string())
    );
    assert_eq!(
        move_request("i", Some(" ".to_string()), Some(" ".to_string())).err(),
        Some("new parent id cannot be empty string".to_string())
    );
    assert_eq!(
        move_request("i", None, Some("".to_string())).err(),
        Some("new name cannot be empty string".to_string())
    );
    let item = moved_item(MoveResponse {
        id: "i".to_string(),
        name: None,
        size: Some(1),
        last_modified_date_time: None,
        folder: None,
        file: Some(DriveFileFacet { mime_type: None }),
    });
    assert_eq!(item.name, "(未命名)");
    assert!(!item.is_folder);
    assert_eq!(move_outcome(200, "200"), Ok(()));
    assert_eq!(
        move_outcome(412, "412"),
        Err("If-Match 校验失败，项目已被其他操作修改".to_string())
    );
    assert_eq!(
        move_outcome(404, "404"),
        Err("未找到指定的项目，可能已被移动或删除".to_string())
    );
    assert_eq!(
        move_outcome(409, "409 Conflict"),
        Err("graph api returned HTTP 409 Conflict while moving item".to_string())
    );
}

#[test]
fn capabilities_follow_the_drive_type() {
    for name in ["personal", "Personal", "PERSONAL"] {
        let caps = ShareCapabilities::from_drive_type(name);
        assert_eq!(caps.drive_type.as_deref(), Some(name));
        assert!(caps.can_embed_link && caps.can_password && !caps.can_org_scope_link);
    }
    for name in ["business", "", "personal ", "documentLibrary"] {
        let caps = ShareCapabilities::from_drive_type(name);
        assert!(!caps.can_embed_link && !caps.can_password && caps.can_org_scope_link);
    }
}

#[test]
fn item_id_must_not_be_blank() {
    assert_eq!(check_item_id("x"), Ok(()));
    assert_eq!(check_item_id(" \n"), Err("drive item id is required".to_string()));
}

#[test]
fn link_names_round_trip() {
    for t in [LinkType::View, LinkType::Edit, LinkType::Embed] {
        assert_eq!(LinkType::from_graph_str(t.as_graph_str()), Some(t));
    }
    for s in [LinkScope::Anonymous, LinkScope::Organization, LinkScope::Users] {
        assert_eq!(LinkScope::from_graph_str(s.as_graph_str()), Some(s));
    }
    assert_eq!(LinkType::Embed.as_graph_str(), "embed");
    assert_eq!(LinkScope::Organization.as_graph_str(), "organization");
    assert_eq!(LinkType::from_graph_str("View"), None);
    assert_eq!(LinkScope::from_graph_str(""), None);
}

#[test]
fn link_request_is_checked_against_the_capabilities() {
    let personal = ShareCapabilities::from_drive_type("personal");
    let business = ShareCapabilities::from_drive_type("business");
    let ask = |t, s, pw: Option<&str>, to: Option<Vec<&str>>, caps: &ShareCapabilities| {
        link_request(
            "item",
            t,
            s,
            pw.map(|p| p.to_string()),
            None,
            Some(true),
            to.map(|l| l.iter().map(|e| e.to_string()).collect()),
            caps,
        )
    };
    assert_eq!(
        link_request(" ", LinkType::View, LinkScope::Anonymous, None, None, None, None, &personal)
            .err(),
        Some("drive item id is required".to_string())
    );
    assert_eq!(
        ask(LinkType::Embed, LinkScope::Anonymous, None, None, &business).err(),
        Some("当前账户类型不支持嵌入链接（embed）".to_string())
    );
    assert_eq!(
        ask(LinkType::View, LinkScope::Organization, None, None, &personal).err(),
        Some("当前账户类型不支持组织内链接".to_string())
    );
    assert_eq!(
        ask(LinkType::View, LinkScope::Anonymous, Some(""), None, &personal).err(),
        Some("密码不能为空字符串".to_string())
    );
    assert_eq!(
        ask(LinkType::View, LinkScope::Anonymous, Some("pw"), None, &business).err(),
        Some("仅个人版 OneDrive 支持密码保护链接".to_string())
    );
    assert_eq!(
        ask(LinkType::View, LinkScope::Users, None, None, &personal).err(),
        Some("指定人员链接需要提供至少一个收件人".to_string())
    );
    assert_eq!(
        ask(LinkType::View, LinkScope::Users, None, Some(vec![]), &personal).err(),
        Some("指定人员链接需要提供至少一个收件人".to_string())
    );
    assert_eq!(
        ask(LinkType::View, LinkScope::Anonymous, None, Some(vec!["a@b"]), &personal).err(),
        Some("只有 scope=users 时才允许指定收件人".to_string())
    );
    let plan = ask(
        LinkType::Edit,
        LinkScope::Users,
        Some("pw"),
        Some(vec![" a@b ", "  ", "c@d"]),
        &personal,
    )
    .unwrap();
    assert_eq!(plan.url, format!("{GRAPH_BASE}/me/drive/items/item/createLink"));
    assert_eq!(plan.body.link_type, "edit");
    assert_eq!(plan.body.scope, "users");
    assert_eq!(plan.body.password.as_deref(), Some("pw"));
    assert_eq!(plan.body.retain_inherited_permissions, Some(true));
    let to: Vec<String> = plan.body.recipients.unwrap().into_iter().map(|r| r.email).collect();
    assert_eq!(to, vec!["a@b".to_string(), "c@d".to_string()]);
    let body = CreateLinkRequest::new(LinkType::View, LinkScope::Anonymous, None, None, None, None);
    assert_eq!(body.link_type, "view");
    assert_eq!(body.recipients, None);
}

#[test]
fn created_link_is_read_from_the_permission() {
    let permission = |link: Option<LinkDto>| PermissionDto {
        id: Some("perm".to_string()),
        roles: None,
        share_id: Some("share".to_string()),
        has_password: None,
        link,
    };
    let link = |t: Option<&str>, s: Option<&str>| LinkDto {
        link_type: t.map(|x| x.to_string()),
        scope: s.map(|x| x.to_string()),
        web_url: Some("https://l".to_string()),
        web_html: None,
    };
    assert_eq!(
        share_link_from(permission(None)).err(),
        Some("missing link object in createLink response".to_string())
    );
    assert_eq!(
        share_link_from(permission(Some(link(Some("peek"), Some("users"))))).err(),
        Some("unexpected link type in response".to_string())
    );
    assert_eq!(
        share_link_from(permission(Some(link(None, Some("users"))))).err(),
        Some("unexpected link type in response".to_string())
    );
    assert_eq!(
        share_link_from(permission(Some(link(Some("view"), Some("world"))))).err(),
        Some("unexpected scope in response".to_string())
    );
    let result = share_link_from(permission(Some(link(Some("embed"), Some("anonymous"))))).unwrap();
    assert_eq!(result.link_type, LinkType::Embed);
    assert_eq!(result.scope, LinkScope::Anonymous);
    assert_eq!(result.web_url.as_deref(), Some("https://l"));
    assert_eq!(result.permission_id.as_deref(), Some("perm"));
    assert_eq!(result.share_id.as_deref(), Some("share"));
    assert!(result.roles.is_empty());
    assert!(!result.password_protected);
    let mut full = permission(Some(link(Some("view"), Some("users"))));
    full.roles = Some(vec!["read".to_string()]);
    full.has_password = Some(true);
    let result = ShareLinkResult::try_from(full).unwrap();
    assert_eq!(result.roles, vec!["read".to_string()]);
    assert!(result.password_protected);
    assert_eq!(
        share_outcome(403, "403"),
        Err("Graph API 拒绝了分享请求，可能已被租户策略禁用".to_string())
    );
    assert_eq!(
        share_outcome(404, "404"),
        Err("未找到指定的项目，可能已被移动或删除".to_string())
    );
    assert_eq!(
        share_outcome(400, "400 Bad Request"),
        Err("graph api returned HTTP 400 Bad Request while creating share link".to_string())
    );
    assert_eq!(share_outcome(201, "201"), Ok(()));
}

#[test]
fn small_upload_is_prepared() {
    assert_eq!(
        small_upload_request(&None, " my file.txt ", 10, false),
        Ok(format!(
            "{GRAPH_BASE}/me/drive/root:/my%20file%2Etxt:/content?@microsoft.graph.conflictBehavior=rename"
        ))
    );
    assert_eq!(
        small_upload_request(&Some(" F7 ".to_string()), "a", 250 * 1024 * 1024, true),
        Ok(format!(
            "{GRAPH_BASE}/me/drive/items/F7:/a:/content?@microsoft.graph.conflictBehavior=replace"
        ))
    );
    assert_eq!(
        small_upload_request(&Some("  ".to_string()), "a", 0, true),
        Ok(format!("{GRAPH_BASE}/me/drive/root:/a:/content?@microsoft.graph.conflictBehavior=replace"))
    );
    assert_eq!(
        small_upload_request(&None, " ", 1, false),
        Err("file name cannot be empty".to_string())
    );
    assert_eq!(
        small_upload_request(&None, "a", 250 * 1024 * 1024 + 1, false),
        Err("file too large for simple upload; please use chunked upload".to_string())
    );
}

#[test]
fn session_is_prepared_and_judged() {
    let request = session_request(&Some("P".to_string()), "\u{6587}.bin", true);
    assert_eq!(
        request.url,
        format!("{GRAPH_BASE}/me/drive/items/P:/%E6%96%87%2Ebin:/createUploadSession")
    );
    assert_eq!(request.conflict_behavior, "replace");
    assert_eq!(request.name, "\u{6587}.bin");
    assert_eq!(session_request(&None, "a", false).conflict_behavior, "rename");
    assert_eq!(upload_outcome(201, "201"), Ok(()));
    assert_eq!(
        upload_outcome(507, "507 Insufficient Storage"),
        Err("graph api returned HTTP 507 Insufficient Storage while uploading".to_string())
    );
    assert_eq!(
        session_create_outcome(400, "400"),
        Err("graph api returned HTTP 400 while creating upload session".to_string())
    );
    assert_eq!(session_query_outcome(200, "200"), Ok(()));
    assert_eq!(
        session_query_outcome(404, "404 Not Found"),
        Err("upload session expired or not found".to_string())
    );
    assert_eq!(
        session_query_outcome(401, "401 Unauthorized"),
        Err("failed to query upload session, http 401 Unauthorized".to_string())
    );
    assert_eq!(cancel_upload_session(204, "204"), Ok(()));
    assert_eq!(cancel_upload_session(404, "404"), Ok(()));
    assert_eq!(
        cancel_upload_session(500, "500 E"),
        Err("failed to cancel upload session, http 500 E".to_string())
    );
}

#[test]
fn session_answer_is_accepted_or_refused() {
    let session = |url: Option<&str>| UploadSessionResponse {
        upload_url: url.map(|u| u.to_string()),
        expiration_date_time: None,
        next_expected_ranges: Some(vec!["5-".to_string()]),
        drive_item: None,
    };
    assert_eq!(
        parse_upload_session_response(Ok(session(Some("u"))), "{}", "ctx", "200 OK", true),
        Ok(session(Some("u")))
    );
    assert_eq!(
        parse_upload_session_response(Ok(session(None)), "{}", "ctx", "200 OK", false),
        Ok(session(None))
    );
    let long: String = "\u{00e9}".repeat(600);
    assert_eq!(
        parse_upload_session_response(Ok(session(None)), &long, "ctx", "200 OK", true),
        Err(format!(
            "ctx: missing uploadUrl field http 200 OK, body_snippet={}",
            "\u{00e9}".repeat(200)
        ))
    );
    assert_eq!(
        parse_upload_session_response(Err("eof".to_string()), &long, "ctx", "202 Accepted", true),
        Err(format!(
            "ctx: parse failed (eof) http 202 Accepted, body_snippet={}",
            "\u{00e9}".repeat(500)
        ))
    );
    assert_eq!(
        parse_upload_session_response(Err("eof".to_string()), "abc", "ctx", "202", false),
        Err("ctx: parse failed (eof) http 202, body_snippet=abc".to_string())
    );
}

#[test]
fn uploaded_item_is_summarised() {
    let response = DriveItemUploadResponse {
        id: "r".to_string(),
        name: None,
        size: Some(4),
        last_modified_date_time: Some("t".to_string()),
        file: Some(UploadFileFacet { mime_type: Some("text/plain".to_string()) }),
    };
    let summary = DriveItemSummary::from(response);
    assert_eq!(summary.id, "r");
    assert_eq!(summary.name, "(未命名)");
    assert!(!summary.is_folder);
    assert_eq!(summary.mime_type.as_deref(), Some("text/plain"));
    assert_eq!(summary.thumbnail_url, None);
    let status = session_status(UploadSessionResponse {
        upload_url: None,
        expiration_date_time: None,
        next_expected_ranges: None,
        drive_item: Some(DriveItemUploadResponse {
            id: "r2".to_string(),
            name: Some("n".to_string()),
            size: None,
            last_modified_date_time: None,
            file: None,
        }),
    });
    assert_eq!(status.item.unwrap().id, "r2");
    assert_eq!(status.next_expected_ranges, None);
}

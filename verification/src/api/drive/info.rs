//! The overview of the drive: type, owner and quota.

use vstd::prelude::*;

use crate::api::http::{check_status, failure_of, FailureTexts, FailureTextsView};
use crate::text::owned;

verus! {

/// Who a drive belongs to.
#[derive(Debug, PartialEq, Eq)]
pub struct DriveOwner {
    pub display_name: Option<String>,
    pub user_principal_name: Option<String>,
    pub id: Option<String>,
}

/// How much of a drive is used.
#[derive(Debug, PartialEq, Eq)]
pub struct DriveQuota {
    pub total: Option<u64>,
    pub used: Option<u64>,
    pub remaining: Option<u64>,
    pub deleted: Option<u64>,
    pub state: Option<String>,
}

/// The overview of a drive.
#[derive(Debug, PartialEq, Eq)]
pub struct DriveInfo {
    pub id: Option<String>,
    pub drive_type: Option<String>,
    pub owner: Option<DriveOwner>,
    pub quota: Option<DriveQuota>,
}

/// One identity as the remote side describes it.
#[derive(Debug, PartialEq, Eq)]
pub struct IdentityDto {
    pub id: Option<String>,
    pub display_name: Option<String>,
    pub user_principal_name: Option<String>,
}

/// The identities that own a drive.
#[derive(Debug, PartialEq, Eq)]
pub struct IdentitySetDto {
    pub user: Option<IdentityDto>,
    pub group: Option<IdentityDto>,
}

/// The quota as the remote side describes it.
#[derive(Debug, PartialEq, Eq)]
pub struct DriveQuotaDto {
    pub total: Option<u64>,
    pub used: Option<u64>,
    pub remaining: Option<u64>,
    pub deleted: Option<u64>,
    pub state: Option<String>,
}

/// The overview as the remote side describes it.
#[derive(Debug, PartialEq, Eq)]
pub struct DriveInfoDto {
    pub id: Option<String>,
    pub drive_type: Option<String>,
    pub owner: Option<IdentitySetDto>,
    pub quota: Option<DriveQuotaDto>,
}

impl DriveOwner {
    /// The owner of a drive: the user among its identities, or else the
    /// group.
    pub open spec fn of_identity_set(set: IdentitySetDto) -> Option<DriveOwner> {
        let identity = if set.user is Some {
            set.user
        } else {
            set.group
        };
        match identity {
            Some(i) => Some(
                DriveOwner {
                    display_name: i.display_name,
                    user_principal_name: i.user_principal_name,
                    id: i.id,
                },
            ),
            None => None,
        }
    }

    /// Picks the owner of a drive out of its identities.
    pub fn from_identity_set(set: IdentitySetDto) -> (r: Option<DriveOwner>)
        ensures
            r == Self::of_identity_set(set),
    {
        let identity = match set.user {
            Some(user) => Some(user),
            None => set.group,
        };
        match identity {
            Some(i) => Some(
                DriveOwner {
                    display_name: i.display_name,
                    user_principal_name: i.user_principal_name,
                    id: i.id,
                },
            ),
            None => None,
        }
    }
}

impl From<DriveQuotaDto> for DriveQuota {
    fn from(value: DriveQuotaDto) -> (quota: DriveQuota) {
        DriveQuota {
            total: value.total,
            used: value.used,
            remaining: value.remaining,
            deleted: value.deleted,
            state: value.state,
        }
    }
}

impl vstd::std_specs::convert::FromSpecImpl<DriveQuotaDto> for DriveQuota {
    open spec fn obeys_from_spec() -> bool {
        true
    }

    open spec fn from_spec(value: DriveQuotaDto) -> DriveQuota {
        DriveQuota {
            total: value.total,
            used: value.used,
            remaining: value.remaining,
            deleted: value.deleted,
            state: value.state,
        }
    }
}

/// The overview that an answer of the remote side amounts to.
pub fn drive_info(payload: DriveInfoDto) -> (info: DriveInfo)
    ensures
        info.id == payload.id,
        info.drive_type == payload.drive_type,
        info.owner == match payload.owner {
            Some(set) => DriveOwner::of_identity_set(set),
            None => None,
        },
        info.quota == match payload.quota {
            Some(q) => Some(
                DriveQuota {
                    total: q.total,
                    used: q.used,
                    remaining: q.remaining,
                    deleted: q.deleted,
                    state: q.state,
                },
            ),
            None => None,
        },
{
    DriveInfo {
        id: payload.id,
        drive_type: payload.drive_type,
        owner: match payload.owner {
            Some(set) => DriveOwner::from_identity_set(set),
            None => None,
        },
        quota: match payload.quota {
            Some(q) => Some(DriveQuota::from(q)),
            None => None,
        },
    }
}

/// The texts with which the overview reports its failures.
pub open spec fn overview_texts() -> FailureTextsView {
    FailureTextsView {
        forbidden: None,
        not_found: Some("OneDrive 不存在或尚未开通，请确认账号状态后重试"@),
        precondition: None,
        failure_prefix: "graph api returned HTTP "@,
        failure_suffix: " while fetching drive overview"@,
    }
}

/// Judges the answer to the overview request by its status.
pub fn overview_outcome(code: u16, shown: &str) -> (r: Result<(), String>)
    ensures
        match failure_of(code, shown@, overview_texts()) {
            Some(text) => r is Err && r->Err_0@ == text,
            None => r is Ok,
        },
{
    check_status(
        code,
        shown,
        FailureTexts {
            forbidden: None,
            not_found: Some(owned("OneDrive 不存在或尚未开通，请确认账号状态后重试")),
            precondition: None,
            failure_prefix: owned("graph api returned HTTP "),
            failure_suffix: owned(" while fetching drive overview"),
        },
    )
}

} // verus!

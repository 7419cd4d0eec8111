//! Users and the tariff tiers their projects are priced under.

use vstd::prelude::*;
use crate::error::ConversionError;

verus! {

/// Tariff tier attached to a project and inherited by its users.
#[derive(Clone, Copy, Debug, PartialEq, Eq, Hash, Structural)]
pub enum UserClass {
    NA,
    UC1,
    UC2,
    UC3,
    UC4,
    UC5,
    UC6,
}

impl UserClass {
    /// Numeric code under which the tier is stored.
    pub open spec fn spec_to_u32(self) -> u32 {
        match self {
            UserClass::NA => 0,
            UserClass::UC1 => 1,
            UserClass::UC2 => 2,
            UserClass::UC3 => 3,
            UserClass::UC4 => 4,
            UserClass::UC5 => 5,
            UserClass::UC6 => 6,
        }
    }

    pub fn to_u32(self) -> (r: u32)
        ensures
            r == self.spec_to_u32(),
    {
        match self {
            UserClass::NA => 0,
            UserClass::UC1 => 1,
            UserClass::UC2 => 2,
            UserClass::UC3 => 3,
            UserClass::UC4 => 4,
            UserClass::UC5 => 5,
            UserClass::UC6 => 6,
        }
    }

    /// Parses a stored numeric code; every code above 6 is rejected.
    pub fn try_from_u32(u: u32) -> (r: Result<UserClass, ConversionError>)
        ensures
            match r {
                Ok(c) => u <= 6 && c.spec_to_u32() == u,
                Err(_) => u > 6,
            },
    {
        match u {
            0 => Ok(UserClass::NA),
            1 => Ok(UserClass::UC1),
            2 => Ok(UserClass::UC2),
            3 => Ok(UserClass::UC3),
            4 => Ok(UserClass::UC4),
            5 => Ok(UserClass::UC5),
            6 => Ok(UserClass::UC6),
            _ => Err(
                ConversionError { detail: "Unknown user class value".to_string() },
            ),
        }
    }

    /// All tiers, in ascending order of their numeric code.
    pub fn all() -> (r: Vec<UserClass>)
        ensures
            r@.len() == 7,
            forall|i: int| 0 <= i < 7 ==> r@[i].spec_to_u32() == i,
    {
        let mut v: Vec<UserClass> = Vec::new();
        v.push(UserClass::NA);
        v.push(UserClass::UC1);
        v.push(UserClass::UC2);
        v.push(UserClass::UC3);
        v.push(UserClass::UC4);
        v.push(UserClass::UC5);
        v.push(UserClass::UC6);
        v
    }
}

/// A cloud user, member of exactly one project.
#[derive(Clone, Debug)]
pub struct User {
    pub id: u32,
    pub name: String,
    pub openstack_id: String,
    pub project: u32,
    pub project_name: String,
    pub role: u32,
    pub is_staff: bool,
    pub is_active: bool,
}

#[derive(Clone, Debug)]
pub struct UserMinimal {
    pub id: u32,
    pub name: String,
}

#[derive(Clone, Debug)]
pub struct UserDetailed {
    pub id: u32,
    pub name: String,
    pub openstack_id: String,
    pub project: crate::project::ProjectMinimal,
    pub project_name: String,
    pub role: u32,
    pub is_staff: bool,
    pub is_active: bool,
}

/// Counts reported after importing projects and users from the identity store.
#[derive(Clone, Debug)]
pub struct UserImport {
    pub new_project_count: u32,
    pub new_user_count: u32,
}

#[derive(Clone, Debug)]
pub struct UserListParams {
    pub all: Option<bool>,
    pub project: Option<u32>,
}

#[derive(Clone, Debug)]
pub struct UserCreateData {
    pub name: String,
    pub openstack_id: String,
    pub project: u32,
    pub role: Option<u32>,
    pub is_staff: Option<bool>,
    pub is_active: Option<bool>,
}

impl UserCreateData {
    pub fn new(name: String, openstack_id: String, project: u32) -> (r: UserCreateData)
        ensures
            r.name == name,
            r.openstack_id == openstack_id,
            r.project == project,
            r.role is None,
            r.is_staff is None,
            r.is_active is None,
    {
        UserCreateData { name, openstack_id, project, role: None, is_staff: None, is_active: None }
    }
}

#[derive(Clone, Debug)]
pub struct UserModifyData {
    pub id: u32,
    pub name: Option<String>,
    pub openstack_id: Option<String>,
    pub project: Option<u32>,
    pub role: Option<u32>,
    pub is_staff: Option<bool>,
    pub is_active: Option<bool>,
}

impl UserModifyData {
    pub fn new(id: u32) -> (r: UserModifyData)
        ensures
            r.id == id,
            r.name is None,
            r.openstack_id is None,
            r.project is None,
            r.role is None,
            r.is_staff is None,
            r.is_active is None,
    {
        UserModifyData {
            id,
            name: None,
            openstack_id: None,
            project: None,
            role: None,
            is_staff: None,
            is_active: None,
        }
    }
}

} // verus!

//! Projects, the billing unit that carries a tariff tier.

use vstd::prelude::*;
use crate::user::{UserClass, UserMinimal};
use crate::resources::FlavorGroupMinimal;

verus! {

/// A project; its `user_class` prices every server of its members.
#[derive(Clone, Debug)]
pub struct Project {
    pub id: u32,
    pub name: String,
    pub openstack_id: String,
    pub user_class: UserClass,
}

#[derive(Clone, Debug)]
pub struct ProjectMinimal {
    pub id: u32,
    pub name: String,
    pub user_class: UserClass,
}

#[derive(Clone, Debug)]
pub struct ProjectDetailed {
    pub id: u32,
    pub name: String,
    pub openstack_id: String,
    pub user_class: UserClass,
    pub users: Vec<UserMinimal>,
    pub flavor_groups: Vec<FlavorGroupMinimal>,
}

/// A project as returned by a lookup: with or without its member lists.
#[derive(Clone, Debug)]
pub enum ProjectRetrieved {
    Detailed(ProjectDetailed),
    Normal(Project),
}

#[derive(Clone, Debug)]
pub struct ProjectListParams {
    pub all: Option<bool>,
    pub userclass: Option<UserClass>,
}

#[derive(Clone, Debug)]
pub struct ProjectCreateData {
    pub name: String,
    pub openstack_id: String,
    pub user_class: Option<UserClass>,
}

impl ProjectCreateData {
    pub fn new(name: String, openstack_id: String) -> (r: ProjectCreateData)
        ensures
            r.name == name,
            r.openstack_id == openstack_id,
            r.user_class is None,
    {
        ProjectCreateData { name, openstack_id, user_class: None }
    }
}

#[derive(Clone, Debug)]
pub struct ProjectModifyData {
    pub id: u32,
    pub name: Option<String>,
    pub openstack_id: Option<String>,
    pub user_class: Option<UserClass>,
}

impl ProjectModifyData {
    pub fn new(id: u32) -> (r: ProjectModifyData)
        ensures
            r.id == id,
            r.name is None,
            r.openstack_id is None,
            r.user_class is None,
    {
        ProjectModifyData { id, name: None, openstack_id: None, user_class: None }
    }
}

} // verus!

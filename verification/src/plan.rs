//! Plans for a definition and a state, given what Discord said of the guild.

use vstd::prelude::*;

use crate::configuration::input::PlanInput;
use crate::domain::ManagementError;
use crate::port::{ChannelCatalog, RoleCatalog};
use crate::resource::channel::plan::{build_channel_plan_with_capabilities, channel_plan};
use crate::resource::role::plan::{build_plan, role_plan};
use crate::value::seen;

verus! {

/// The plan for the roles of a guild.
pub fn plan_roles(input: &PlanInput, catalog: &RoleCatalog) -> (result: Result<
    crate::resource::role::plan::Plan,
    ManagementError,
>)
    ensures
        seen(result) == role_plan(input.deep_view().0, input.deep_view().1, catalog.deep_view()),
{
    build_plan(&input.definition, &input.state, catalog)
}

/// The plan for the channels of a guild.
pub fn plan_channels(input: &PlanInput, catalog: &ChannelCatalog, can_manage_roles: bool) -> (result: Result<
    crate::resource::channel::plan::Plan,
    ManagementError,
>)
    ensures
        seen(result) == channel_plan(
            input.deep_view().0,
            input.deep_view().1,
            catalog.deep_view(),
            can_manage_roles,
        ),
{
    build_channel_plan_with_capabilities(&input.definition, &input.state, catalog, can_manage_roles)
}

} // verus!

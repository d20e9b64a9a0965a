//! Records exchanged with the backend JSON API, as plain values.
use vstd::prelude::*;
use crate::json::Json;
use crate::text_map::TextMap;

verus! {

#[derive(Clone, PartialEq, Debug)]
pub struct Note {
    pub id: i64,
    pub title: String,
    pub body: String,
    pub repo: Option<String>,
    pub ref_type: Option<String>,
    pub ref_number: Option<i64>,
    /// JSON array string.
    pub tags: String,
    pub created_at: String,
    pub updated_at: String,
}

#[derive(Clone, PartialEq, Debug)]
pub struct Dashboard {
    pub id: i64,
    pub name: String,
    pub description: String,
    pub created_at: String,
    pub updated_at: String,
}

#[derive(Clone, PartialEq, Debug)]
pub struct Tile {
    pub id: i64,
    pub dashboard_id: i64,
    pub title: String,
    /// `"gh_query"` or `"note"`.
    pub tile_type: String,
    /// JSON string.
    pub config: String,
    /// JSON string.
    pub layout: String,
    pub created_at: String,
    pub updated_at: String,
}

#[derive(Clone, Copy, PartialEq, Debug)]
pub struct TileLayout {
    pub x: i32,
    pub y: i32,
    pub w: i32,
    pub h: i32,
}

impl Default for TileLayout {
    /// Matches the backend default tile size.
    fn default() -> (l: Self)
        ensures
            l == (TileLayout { x: 0, y: 0, w: 4, h: 4 }),
    {
        TileLayout { x: 0, y: 0, w: 4, h: 4 }
    }
}

/// A template variable value: either a single string or a list (a list value
/// runs the command once per element).
#[derive(Clone, PartialEq, Debug)]
pub enum VarValue {
    One(String),
    Many(Vec<String>),
}

#[derive(Clone, Debug, Default)]
pub struct GhQueryConfig {
    pub command: String,
    pub commands: Option<Vec<String>>,
    pub columns: Option<Vec<String>>,
    pub field_extractors: Option<TextMap<String>>,
    pub variables: Option<TextMap<VarValue>>,
}

#[derive(Clone, PartialEq, Debug)]
pub struct NoteConfig {
    pub note_id: i64,
}

#[derive(Clone, PartialEq, Debug)]
pub struct ReleaseWatch {
    pub id: i64,
    pub repo_id: i64,
    pub limit_count: i64,
    pub position: i64,
    pub created_at: String,
    pub updated_at: String,
}

#[derive(Clone, Debug)]
pub struct CreateReleaseWatchInput {
    pub repo_id: i64,
    pub limit_count: i64,
}

#[derive(Clone, PartialEq, Debug)]
pub struct Repo {
    pub id: i64,
    pub name: String,
    pub owner_repo: String,
    pub position: i64,
    pub created_at: String,
    pub updated_at: String,
}

#[derive(Clone, Debug, Default)]
pub struct CreateRepoInput {
    pub name: String,
    pub owner_repo: String,
}

#[derive(Clone, Debug, Default)]
pub struct UpdateRepoInput {
    pub name: Option<String>,
    pub owner_repo: Option<String>,
    pub position: Option<i64>,
}

#[derive(Clone, PartialEq, Debug)]
pub struct WarRoom {
    pub id: i64,
    pub name: String,
    pub description: String,
    pub status: String,
    pub config: String,
    pub notes: String,
    pub position: i64,
    pub created_at: String,
    pub updated_at: String,
}

#[derive(Clone, PartialEq, Debug)]
pub struct WarRoomGroup {
    pub id: i64,
    pub war_room_id: i64,
    pub repo_id: Option<i64>,
    pub name: String,
    pub repo: Option<String>,
    pub position: i64,
    pub created_at: String,
    pub updated_at: String,
}

#[derive(Clone, PartialEq, Debug, Default)]
pub struct ChecklistItem {
    pub text: String,
    pub done: bool,
}

#[derive(Clone, PartialEq, Debug)]
pub struct WarRoomItem {
    pub id: i64,
    pub group_id: i64,
    pub label: String,
    pub ref_type: Option<String>,
    pub ref_number: Option<i64>,
    pub note: String,
    pub stage: String,
    /// JSON array string.
    pub checklist: String,
    pub depends_on: Option<i64>,
    pub source_item_id: Option<i64>,
    pub position: i64,
    pub created_at: String,
    pub updated_at: String,
}

/// Composite read model returned by `GET /api/war-rooms/:id`.
#[derive(Clone, PartialEq, Debug)]
pub struct WarRoomDetail {
    pub war_room: WarRoom,
    pub groups: Vec<GroupWithItems>,
}

#[derive(Clone, PartialEq, Debug)]
pub struct GroupWithItems {
    pub group: WarRoomGroup,
    pub items: Vec<WarRoomItem>,
}

#[derive(Clone, Debug, Default)]
pub struct CreateWarRoomInput {
    pub name: String,
    pub description: Option<String>,
}

#[derive(Clone, Debug, Default)]
pub struct UpdateWarRoomInput {
    pub name: Option<String>,
    pub description: Option<String>,
    pub status: Option<String>,
    pub notes: Option<String>,
    pub position: Option<i64>,
}

#[derive(Clone, PartialEq, Debug, Default)]
pub struct CreateGroupInput {
    pub name: String,
    pub repo_id: Option<i64>,
    pub repo: Option<String>,
}

/// Group update is replace-style: the full group is sent, so that leaving a
/// repo field empty clears it.
#[derive(Clone, PartialEq, Debug, Default)]
pub struct UpdateGroupInput {
    pub name: Option<String>,
    pub repo_id: Option<i64>,
    pub repo: Option<String>,
    pub position: Option<i64>,
}

#[derive(Clone, PartialEq, Debug, Default)]
pub struct CreateItemInput {
    pub label: String,
    pub ref_type: Option<String>,
    pub ref_number: Option<i64>,
    pub note: Option<String>,
    pub stage: Option<String>,
    pub checklist: Option<Vec<ChecklistItem>>,
    pub depends_on: Option<i64>,
    pub source_item_id: Option<i64>,
}

/// Item update is replace-style: the full item is sent, so that leaving a
/// ref or dependency field empty clears it.
#[derive(Clone, PartialEq, Debug, Default)]
pub struct UpdateItemInput {
    pub label: Option<String>,
    pub ref_type: Option<String>,
    pub ref_number: Option<i64>,
    pub note: Option<String>,
    pub stage: Option<String>,
    pub checklist: Option<Vec<ChecklistItem>>,
    pub depends_on: Option<i64>,
    pub position: Option<i64>,
}

#[derive(Clone, Debug, PartialEq, Default)]
pub struct CreateNoteInput {
    pub title: String,
    pub body: Option<String>,
    pub repo: Option<String>,
    pub ref_type: Option<String>,
    pub ref_number: Option<i64>,
    pub tags: Option<Vec<String>>,
}

#[derive(Clone, Debug, Default)]
pub struct CreateDashboardInput {
    pub name: String,
    pub description: Option<String>,
}

#[derive(Clone, Debug, Default)]
pub struct UpdateDashboardInput {
    pub name: Option<String>,
    pub description: Option<String>,
}

#[derive(Debug)]
pub struct CreateTileInput {
    pub title: String,
    pub tile_type: String,
    pub config: Json,
    pub layout: Option<TileLayout>,
}

#[derive(Debug)]
pub struct UpdateTileInput {
    pub title: Option<String>,
    pub config: Option<Json>,
    pub layout: Option<TileLayout>,
}

#[derive(Clone, PartialEq, Debug)]
pub struct CalendarDashboard {
    pub id: i64,
    pub name: String,
    pub description: String,
    pub position: i64,
    pub created_at: String,
    pub updated_at: String,
}

#[derive(Clone, PartialEq, Debug)]
pub struct CalendarComponent {
    pub id: i64,
    pub calendar_id: i64,
    pub name: String,
    pub short_name: Option<String>,
    pub color: String,
    pub position: i64,
    pub created_at: String,
    pub updated_at: String,
}

#[derive(Clone, PartialEq, Debug)]
pub struct CalendarEvent {
    pub id: i64,
    pub calendar_id: i64,
    pub component_id: Option<i64>,
    pub version: String,
    /// `"on_track"`, `"at_risk"`, `"delayed"` or `"released"`.
    pub status: String,
    /// Planned date, `YYYY-MM-DD`.
    pub release_date: String,
    /// Actual date, `YYYY-MM-DD`.
    pub actual_release_date: Option<String>,
    pub note: String,
    pub created_at: String,
    pub updated_at: String,
}

#[derive(Clone, PartialEq, Debug)]
pub struct CalendarDashboardDetail {
    pub dashboard: CalendarDashboard,
    pub components: Vec<CalendarComponent>,
    pub events: Vec<CalendarEvent>,
}

#[derive(Clone, Debug, Default)]
pub struct CreateCalendarDashboardInput {
    pub name: String,
    pub description: Option<String>,
}

#[derive(Clone, Debug, Default)]
pub struct UpdateCalendarDashboardInput {
    pub name: Option<String>,
    pub description: Option<String>,
    pub position: Option<i64>,
}

#[derive(Clone, Debug, Default)]
pub struct CreateCalendarComponentInput {
    pub name: String,
    pub short_name: Option<String>,
    pub color: Option<String>,
}

#[derive(Clone, Debug, Default)]
pub struct UpdateCalendarComponentInput {
    pub name: Option<String>,
    pub short_name: Option<String>,
    pub color: Option<String>,
    pub position: Option<i64>,
}

#[derive(Clone, Debug, Default)]
pub struct CreateCalendarEventInput {
    pub component_id: Option<i64>,
    pub version: String,
    pub status: Option<String>,
    pub release_date: String,
    pub actual_release_date: Option<String>,
    pub note: Option<String>,
}

#[derive(Clone, Debug, Default)]
pub struct UpdateCalendarEventInput {
    /// Replace-style: `None` clears the association.
    pub component_id: Option<i64>,
    pub version: Option<String>,
    pub status: Option<String>,
    pub release_date: Option<String>,
    pub actual_release_date: Option<String>,
    pub note: Option<String>,
}

#[derive(Debug)]
pub struct GhExecuteResponse {
    pub output: Json,
    pub raw: String,
    pub cached: bool,
}

#[derive(Clone, Debug)]
pub struct RowOrderResponse {
    pub order: Vec<String>,
}

} // verus!

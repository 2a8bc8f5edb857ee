//! The project file's data: clips with their span on the timeline, and the
//! output settings.
use vstd::prelude::*;
use crate::media::FrameRate;

verus! {

broadcast use vstd::string::group_string_axioms;

/// One clip of the project file. Times are microseconds.
#[derive(Debug)]
pub struct ClipData {
    pub file_path: String,
    pub start_time: i64,
    pub end_time: i64,
    pub track_index: usize,
}

/// The clips of the project file and the timeline's length (microseconds).
#[derive(Debug)]
pub struct TimelineData {
    pub clips: Vec<ClipData>,
    pub duration: i64,
}

/// Output settings of the project file.
#[derive(Debug, Clone, Copy, PartialEq, Eq, Structural)]
pub struct ProjectSettings {
    pub width: u32,
    pub height: u32,
    pub fps: FrameRate,
}

/// The project file.
#[derive(Debug)]
pub struct Project {
    pub name: String,
    pub version: String,
    pub timeline: TimelineData,
    pub settings: ProjectSettings,
}

impl Project {
    /// Whether this is a new, empty project with this name: version 0.1.0, no
    /// clips, length 0, 1280 x 720 at 30 frames per second.
    pub open spec fn is_fresh(self, name: Seq<char>) -> bool {
        &&& self.name@ == name
        &&& self.version@ == "0.1.0"@
        &&& self.timeline.clips@.len() == 0
        &&& self.timeline.duration == 0
        &&& self.settings == (ProjectSettings { width: 1280, height: 720, fps: FrameRate { num: 30, den: 1 } })
    }

    /// A new, empty project with this name.
    pub fn new(name: &str) -> (p: Project)
        ensures
            p.is_fresh(name@),
    {
        Project {
            name: String::from_str(name),
            version: String::from_str("0.1.0"),
            timeline: TimelineData { clips: Vec::new(), duration: 0 },
            settings: ProjectSettings { width: 1280, height: 720, fps: FrameRate::thirty() },
        }
    }
}

impl Default for Project {
    /// A new, empty project named 新規プロジェクト.
    fn default() -> (p: Project)
        ensures
            p.is_fresh("新規プロジェクト"@),
    {
        Project::new("新規プロジェクト")
    }
}

} // verus!

//! Report definitions, and what a definition and the fetched students hand on
//! to the renderer.

use vstd::prelude::*;
use vstd::string::StringExecFns;
use crate::record::{
    row_views, student_views, IdentityRecord, ReportingRecord, ScoreRecord,
};
use crate::report::{assemble, is_report_of};
use crate::rule::{rule_views, RangeRule};

verus! {

/// The name by which every report addresses its reader.
pub const DISPLAY_NAME: &'static str = "Mr. Smith";

/// The directory of the templates, with its separator.
pub const TEMPLATE_DIRECTORY: &'static str = "./templates/";

/// The extension of a template file.
pub const TEMPLATE_EXTENSION: &'static str = ".liquid";

/// The extension of a rendered report.
pub const OUTPUT_EXTENSION: &'static str = ".html";

/// One configured report: which students it covers, by which rules it
/// classifies them, and with which template it is rendered.
#[derive(Clone, Debug, PartialEq, Eq)]
pub struct ReportDefinition {
    pub label: String,
    pub schedule: String,
    pub recipients: Vec<String>,
    pub template_name: String,
    pub rules: Vec<RangeRule>,
    pub student_ids: Vec<u32>,
}

/// What the renderer gets for one report, and where its output goes.
#[derive(Clone, Debug, PartialEq, Eq)]
pub struct RenderJob {
    /// The file that holds the template.
    pub template_path: String,
    /// The name by which the report addresses its reader.
    pub display_name: String,
    /// The rows of the report, in their final order.
    pub students: Vec<ReportingRecord>,
    /// The file that the rendered report is written to.
    pub output_file: String,
}

/// The file of the template with the given name.
pub open spec fn template_path_of(template_name: Seq<char>) -> Seq<char> {
    TEMPLATE_DIRECTORY@ + template_name + TEMPLATE_EXTENSION@
}

/// The file that a report with the given template is written to.
pub open spec fn output_file_of(template_name: Seq<char>) -> Seq<char> {
    template_name + OUTPUT_EXTENSION@
}

impl ReportDefinition {
    /// The file that holds the template of the report.
    pub fn template_path(&self) -> (path: String)
        ensures
            path@ == template_path_of(self.template_name@),
    {
        let mut path = String::from_str(TEMPLATE_DIRECTORY);
        path.append(self.template_name.as_str());
        path.append(TEMPLATE_EXTENSION);
        path
    }

    /// The file that the rendered report is written to.
    pub fn output_file(&self) -> (file: String)
        ensures
            file@ == output_file_of(self.template_name@),
    {
        let mut file = self.template_name.clone();
        file.append(OUTPUT_EXTENSION);
        file
    }

    /// What the renderer gets once the students of the report have been
    /// fetched: the report on them under the rules of the definition, the
    /// template to render it with, and the file to write.
    pub fn render_job(&self, aggregated: &Vec<(IdentityRecord, ScoreRecord)>) -> (job: RenderJob)
        ensures
            job.template_path@ == template_path_of(self.template_name@),
            job.display_name@ == DISPLAY_NAME@,
            is_report_of(row_views(job.students@), student_views(aggregated@), rule_views(self.rules@)),
            job.output_file@ == output_file_of(self.template_name@),
    {
        RenderJob {
            template_path: self.template_path(),
            display_name: String::from_str(DISPLAY_NAME),
            students: assemble(aggregated, &self.rules),
            output_file: self.output_file(),
        }
    }
}

} // verus!

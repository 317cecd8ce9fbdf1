//! Resume, job-description and result records. Keyed collections, which the
//! stored JSON writes as objects (read into a `BTreeMap<String, _>`), are held
//! as `(key, value)` vectors in ascending key order, the order in which a
//! `BTreeMap` yields them (`reindex::keys_ascending`, which the functions that
//! number entries, merge resumes and normalize them ensure).

use vstd::prelude::*;

verus! {

#[derive(Debug)]
pub struct ResumeData {
    pub basic_info: BasicInfo,
    /// Work entries by index key ("1", "2", ...), in ascending key order.
    pub work_experience: Vec<(String, WorkItem)>,
    /// Project entries by index key, in ascending key order.
    pub project_experience: Vec<(String, ProjectItem)>,
}

#[derive(Debug)]
pub struct BasicInfo {
    pub name: String,
    pub age: String,
    pub contact: String,
    pub gender: String,
    pub education: Vec<EducationItem>,
    pub skills: Vec<String>,
    pub certificates: Vec<String>,
}

#[derive(Debug)]
pub struct EducationItem {
    pub school: String,
    pub major: String,
    pub degree: String,
    pub period: String,
}

#[derive(Debug)]
pub struct WorkItem {
    pub company: String,
    pub position: String,
    pub period: String,
    pub description: String,
}

#[derive(Debug)]
pub struct ProjectItem {
    pub project_name: String,
    pub project_description: String,
    pub project_achievements: String,
}

#[derive(Debug)]
pub struct JdScoreResult {
    pub score: i32,
    pub matched_keywords: Vec<String>,
    pub total_keywords: usize,
}

#[derive(Debug)]
pub struct ResumeRecord {
    pub id: String,
    pub created_at: String,
    pub source_file: String,
    pub file_name: String,
    pub data: ResumeData,
}

#[derive(Debug)]
pub struct JdRecord {
    pub id: String,
    pub created_at: String,
    pub title: String,
    pub text: String,
}

/// Index made together with a parsed resume, sent to the model when screening
/// against a job description.
#[derive(Debug)]
pub struct JdScreeningIndex {
    pub summary_for_jd: String,
    pub skill_tags: Vec<String>,
    pub role_tags: Vec<String>,
    pub domain_tags: Vec<String>,
    /// Work highlights, one per line.
    pub work_bullets: String,
    /// Project highlights, one per line.
    pub project_bullets: String,
}

/// A parsed resume with its screening index.
#[derive(Debug)]
pub struct ResumeParseOutput {
    pub resume: ResumeData,
    pub jd_screening_index: JdScreeningIndex,
}

#[derive(Debug)]
pub struct ParsedResultRecord {
    pub id: String,
    pub created_at: String,
    pub imported_date: String,
    pub resume_id: Option<String>,
    pub source_file: String,
    pub candidate_name: String,
    pub age: String,
    pub contact: String,
    pub position: String,
    pub degree: String,
    pub work_years: String,
    pub skills: Vec<String>,
    pub json_path: String,
    pub jd_screening_json_path: String,
}

#[derive(Debug)]
pub struct ParsedJdScoreRecord {
    pub parsed_id: String,
    pub resume_id: Option<String>,
    pub candidate_name: String,
    pub source_file: String,
    pub age: String,
    pub contact: String,
    pub position: String,
    pub degree: String,
    pub work_years: String,
    pub skills: Vec<String>,
    pub json_path: String,
    pub jd_screening_json_path: String,
    pub score: i32,
    pub score_breakdown: JdScoreBreakdown,
    pub matched_keywords: Vec<String>,
    pub total_keywords: usize,
}

#[derive(Debug)]
pub struct JdScoreBreakdown {
    pub skill_score: i32,
    pub years_score: i32,
    pub degree_score: i32,
    pub work_score: i32,
    pub project_score: i32,
    /// The model's short reasoning (within 150 chars).
    pub rationale: String,
}

pub open spec fn strings_view(v: Seq<String>) -> Seq<Seq<char>> {
    v.map_values(|s: String| s@)
}

/// The texts of an education entry.
pub struct EducationItemV {
    pub school: Seq<char>,
    pub major: Seq<char>,
    pub degree: Seq<char>,
    pub period: Seq<char>,
}

impl View for EducationItem {
    type V = EducationItemV;

    open spec fn view(&self) -> EducationItemV {
        EducationItemV {
            school: self.school@,
            major: self.major@,
            degree: self.degree@,
            period: self.period@,
        }
    }
}

/// The texts of a work entry.
pub struct WorkItemV {
    pub company: Seq<char>,
    pub position: Seq<char>,
    pub period: Seq<char>,
    pub description: Seq<char>,
}

impl View for WorkItem {
    type V = WorkItemV;

    open spec fn view(&self) -> WorkItemV {
        WorkItemV {
            company: self.company@,
            position: self.position@,
            period: self.period@,
            description: self.description@,
        }
    }
}

/// The texts of a project entry.
pub struct ProjectItemV {
    pub project_name: Seq<char>,
    pub project_description: Seq<char>,
    pub project_achievements: Seq<char>,
}

impl View for ProjectItem {
    type V = ProjectItemV;

    open spec fn view(&self) -> ProjectItemV {
        ProjectItemV {
            project_name: self.project_name@,
            project_description: self.project_description@,
            project_achievements: self.project_achievements@,
        }
    }
}

/// The texts of the basic information of a resume.
pub struct BasicInfoV {
    pub name: Seq<char>,
    pub age: Seq<char>,
    pub contact: Seq<char>,
    pub gender: Seq<char>,
    pub education: Seq<EducationItemV>,
    pub skills: Seq<Seq<char>>,
    pub certificates: Seq<Seq<char>>,
}

impl View for BasicInfo {
    type V = BasicInfoV;

    open spec fn view(&self) -> BasicInfoV {
        BasicInfoV {
            name: self.name@,
            age: self.age@,
            contact: self.contact@,
            gender: self.gender@,
            education: self.education@.map_values(|e: EducationItem| e@),
            skills: strings_view(self.skills@),
            certificates: strings_view(self.certificates@),
        }
    }
}

/// The texts of a resume; keyed entries as `(key, entry)` pairs in order.
pub struct ResumeDataV {
    pub basic_info: BasicInfoV,
    pub work_experience: Seq<(Seq<char>, WorkItemV)>,
    pub project_experience: Seq<(Seq<char>, ProjectItemV)>,
}

impl View for ResumeData {
    type V = ResumeDataV;

    open spec fn view(&self) -> ResumeDataV {
        ResumeDataV {
            basic_info: self.basic_info@,
            work_experience: self.work_experience@.map_values(|p: (String, WorkItem)| (p.0@, p.1@)),
            project_experience: self.project_experience@.map_values(
                |p: (String, ProjectItem)| (p.0@, p.1@),
            ),
        }
    }
}

/// The texts of a screening index.
pub struct JdScreeningIndexV {
    pub summary_for_jd: Seq<char>,
    pub skill_tags: Seq<Seq<char>>,
    pub role_tags: Seq<Seq<char>>,
    pub domain_tags: Seq<Seq<char>>,
    pub work_bullets: Seq<char>,
    pub project_bullets: Seq<char>,
}

impl View for JdScreeningIndex {
    type V = JdScreeningIndexV;

    open spec fn view(&self) -> JdScreeningIndexV {
        JdScreeningIndexV {
            summary_for_jd: self.summary_for_jd@,
            skill_tags: strings_view(self.skill_tags@),
            role_tags: strings_view(self.role_tags@),
            domain_tags: strings_view(self.domain_tags@),
            work_bullets: self.work_bullets@,
            project_bullets: self.project_bullets@,
        }
    }
}

/// A copy of a work entry.
pub fn clone_work_item(w: &WorkItem) -> (r: WorkItem)
    ensures
        r@ == w@,
{
    WorkItem {
        company: w.company.clone(),
        position: w.position.clone(),
        period: w.period.clone(),
        description: w.description.clone(),
    }
}

/// A copy of a project entry.
pub fn clone_project_item(p: &ProjectItem) -> (r: ProjectItem)
    ensures
        r@ == p@,
{
    ProjectItem {
        project_name: p.project_name.clone(),
        project_description: p.project_description.clone(),
        project_achievements: p.project_achievements.clone(),
    }
}

/// A copy of an education entry.
pub fn clone_education_item(e: &EducationItem) -> (r: EducationItem)
    ensures
        r@ == e@,
{
    EducationItem {
        school: e.school.clone(),
        major: e.major.clone(),
        degree: e.degree.clone(),
        period: e.period.clone(),
    }
}

} // verus!

//! Data model of the report pipeline: jobs, error lines, log matches,
//! aggregates, and the views that contracts are stated over.

use vstd::prelude::*;

verus! {

/// One CI job execution, normalized from a raw job-table row.
#[derive(Debug, PartialEq, Eq)]
pub struct Job {
    pub id: u64,
    pub job_type_name: String,
    pub job_type_symbol: String,
    pub platform: String,
    pub platform_option: String,
    pub result: String,
    pub state: String,
    pub failure_classification_id: Option<u64>,
    pub duration: Option<u64>,
}

/// Mathematical model of a `Job`: every text field as a sequence of characters.
#[verifier::ext_equal]
pub struct JobView {
    pub id: u64,
    pub job_type_name: Seq<char>,
    pub job_type_symbol: Seq<char>,
    pub platform: Seq<char>,
    pub platform_option: Seq<char>,
    pub result: Seq<char>,
    pub state: Seq<char>,
    pub failure_classification_id: Option<u64>,
    pub duration: Option<u64>,
}

impl View for Job {
    type V = JobView;

    open spec fn view(&self) -> JobView {
        JobView {
            id: self.id,
            job_type_name: self.job_type_name@,
            job_type_symbol: self.job_type_symbol@,
            platform: self.platform@,
            platform_option: self.platform_option@,
            result: self.result@,
            state: self.state@,
            failure_classification_id: self.failure_classification_id,
            duration: self.duration,
        }
    }
}

impl DeepView for Job {
    type V = JobView;

    open spec fn deep_view(&self) -> JobView {
        self.view()
    }
}

impl Clone for Job {
    /// Cloning keeps the model unchanged.
    fn clone(&self) -> (res: Job)
        ensures
            res@ == self@,
    {
        let res = Job {
            id: self.id,
            job_type_name: self.job_type_name.clone(),
            job_type_symbol: self.job_type_symbol.clone(),
            platform: self.platform.clone(),
            platform_option: self.platform_option.clone(),
            result: self.result.clone(),
            state: self.state.clone(),
            failure_classification_id: self.failure_classification_id,
            duration: self.duration,
        };
        proof {
            assert(res@ =~= self@);
        }
        res
    }
}

/// One structured test-failure record from an error-summary stream.
#[derive(Debug, Clone, PartialEq, Eq)]
pub struct ErrorLine {
    pub action: String,
    pub line: u64,
    pub test: Option<String>,
    pub subtest: Option<String>,
    pub status: Option<String>,
    pub message: Option<String>,
    pub stack: Option<String>,
}

/// Mathematical model of an `ErrorLine`.
#[verifier::ext_equal]
pub struct ErrorLineView {
    pub action: Seq<char>,
    pub line: u64,
    pub test: Option<Seq<char>>,
    pub subtest: Option<Seq<char>>,
    pub status: Option<Seq<char>>,
    pub message: Option<Seq<char>>,
    pub stack: Option<Seq<char>>,
}

impl View for ErrorLine {
    type V = ErrorLineView;

    open spec fn view(&self) -> ErrorLineView {
        ErrorLineView {
            action: self.action@,
            line: self.line,
            test: self.test.deep_view(),
            subtest: self.subtest.deep_view(),
            status: self.status.deep_view(),
            message: self.message.deep_view(),
            stack: self.stack.deep_view(),
        }
    }
}

impl DeepView for ErrorLine {
    type V = ErrorLineView;

    open spec fn deep_view(&self) -> ErrorLineView {
        self.view()
    }
}

/// One pattern hit inside a saved log file; line numbers are 1-based.
#[derive(Debug, Clone, PartialEq, Eq)]
pub struct LogMatch {
    pub log_name: String,
    pub line_number: usize,
    pub line_content: String,
}

/// Mathematical model of a `LogMatch`.
#[verifier::ext_equal]
pub struct LogMatchView {
    pub log_name: Seq<char>,
    pub line_number: usize,
    pub line_content: Seq<char>,
}

impl View for LogMatch {
    type V = LogMatchView;

    open spec fn view(&self) -> LogMatchView {
        LogMatchView {
            log_name: self.log_name@,
            line_number: self.line_number,
            line_content: self.line_content@,
        }
    }
}

impl DeepView for LogMatch {
    type V = LogMatchView;

    open spec fn deep_view(&self) -> LogMatchView {
        self.view()
    }
}

/// A job together with its parsed error lines, its pattern matches, and
/// the directory its logs were saved under, when logs were fetched.
#[derive(Debug, Clone, PartialEq, Eq)]
pub struct JobWithLogs {
    pub job: Job,
    pub errors: Vec<ErrorLine>,
    pub log_matches: Vec<LogMatch>,
    pub log_dir: Option<String>,
}

/// Mathematical model of a `JobWithLogs`.
#[verifier::ext_equal]
pub struct JobWithLogsView {
    pub job: JobView,
    pub errors: Seq<ErrorLineView>,
    pub log_matches: Seq<LogMatchView>,
    pub log_dir: Option<Seq<char>>,
}

impl View for JobWithLogs {
    type V = JobWithLogsView;

    open spec fn view(&self) -> JobWithLogsView {
        JobWithLogsView {
            job: self.job@,
            errors: self.errors.deep_view(),
            log_matches: self.log_matches.deep_view(),
            log_dir: self.log_dir.deep_view(),
        }
    }
}

impl DeepView for JobWithLogs {
    type V = JobWithLogsView;

    open spec fn deep_view(&self) -> JobWithLogsView {
        self.view()
    }
}

/// The persisted unit of the cache: one push's revision, id, repository,
/// and the filtered job list as of fetch time.
#[derive(Debug, Clone, PartialEq, Eq)]
pub struct CachedPushMetadata {
    pub revision: String,
    pub push_id: u64,
    pub repo: String,
    pub jobs: Vec<Job>,
}

/// Mathematical model of a `CachedPushMetadata`.
#[verifier::ext_equal]
pub struct CachedPushMetadataView {
    pub revision: Seq<char>,
    pub push_id: u64,
    pub repo: Seq<char>,
    pub jobs: Seq<JobView>,
}

impl View for CachedPushMetadata {
    type V = CachedPushMetadataView;

    open spec fn view(&self) -> CachedPushMetadataView {
        CachedPushMetadataView {
            revision: self.revision@,
            push_id: self.push_id,
            repo: self.repo@,
            jobs: self.jobs.deep_view(),
        }
    }
}

impl DeepView for CachedPushMetadata {
    type V = CachedPushMetadataView;

    open spec fn deep_view(&self) -> CachedPushMetadataView {
        self.view()
    }
}

/// One occurrence of a failing test: the job it failed in and the error's
/// subtest and message.
#[derive(Debug, Clone, PartialEq, Eq)]
pub struct GroupedJobInfo {
    pub job_id: u64,
    pub platform: String,
    pub job_type_name: String,
    pub subtest: Option<String>,
    pub message: Option<String>,
}

/// Mathematical model of a `GroupedJobInfo`.
#[verifier::ext_equal]
pub struct GroupedJobInfoView {
    pub job_id: u64,
    pub platform: Seq<char>,
    pub job_type_name: Seq<char>,
    pub subtest: Option<Seq<char>>,
    pub message: Option<Seq<char>>,
}

impl View for GroupedJobInfo {
    type V = GroupedJobInfoView;

    open spec fn view(&self) -> GroupedJobInfoView {
        GroupedJobInfoView {
            job_id: self.job_id,
            platform: self.platform@,
            job_type_name: self.job_type_name@,
            subtest: self.subtest.deep_view(),
            message: self.message.deep_view(),
        }
    }
}

impl DeepView for GroupedJobInfo {
    type V = GroupedJobInfoView;

    open spec fn deep_view(&self) -> GroupedJobInfoView {
        self.view()
    }
}

/// A test name, the deduplicated platforms it failed on, and every
/// occurrence of the failure.
#[derive(Debug, Clone, PartialEq, Eq)]
pub struct GroupedTestFailure {
    pub test_name: String,
    pub platforms: Vec<String>,
    pub jobs: Vec<GroupedJobInfo>,
}

/// Mathematical model of a `GroupedTestFailure`.
#[verifier::ext_equal]
pub struct GroupedTestFailureView {
    pub test_name: Seq<char>,
    pub platforms: Seq<Seq<char>>,
    pub jobs: Seq<GroupedJobInfoView>,
}

impl View for GroupedTestFailure {
    type V = GroupedTestFailureView;

    open spec fn view(&self) -> GroupedTestFailureView {
        GroupedTestFailureView {
            test_name: self.test_name@,
            platforms: self.platforms.deep_view(),
            jobs: self.jobs.deep_view(),
        }
    }
}

impl DeepView for GroupedTestFailure {
    type V = GroupedTestFailureView;

    open spec fn deep_view(&self) -> GroupedTestFailureView {
        self.view()
    }
}

/// One test in a two-revision comparison: the test name and the platforms
/// on which its classification (new, fixed, still failing) holds.
#[derive(Debug, Clone, PartialEq, Eq)]
pub struct ComparisonFailure {
    pub test_name: String,
    pub platforms: Vec<String>,
    pub job_type: String,
}

/// Mathematical model of a `ComparisonFailure`.
#[verifier::ext_equal]
pub struct ComparisonFailureView {
    pub test_name: Seq<char>,
    pub platforms: Seq<Seq<char>>,
    pub job_type: Seq<char>,
}

impl View for ComparisonFailure {
    type V = ComparisonFailureView;

    open spec fn view(&self) -> ComparisonFailureView {
        ComparisonFailureView {
            test_name: self.test_name@,
            platforms: self.platforms.deep_view(),
            job_type: self.job_type@,
        }
    }
}

impl DeepView for ComparisonFailure {
    type V = ComparisonFailureView;

    open spec fn deep_view(&self) -> ComparisonFailureView {
        self.view()
    }
}

/// The outcome of comparing two revisions' failure sets.
#[derive(Debug, Clone, PartialEq, Eq)]
pub struct ComparisonResult {
    pub base_revision: String,
    pub compare_revision: String,
    pub base_push_id: u64,
    pub compare_push_id: u64,
    pub new_failures: Vec<ComparisonFailure>,
    pub fixed_failures: Vec<ComparisonFailure>,
    pub still_failing: Vec<ComparisonFailure>,
}

/// One historically similar job execution.
#[derive(Debug, Clone, PartialEq, Eq)]
pub struct SimilarJob {
    pub id: u64,
    pub job_type_name: String,
    pub platform: String,
    pub result: String,
    pub state: String,
    pub push_id: u64,
    pub start_timestamp: Option<u64>,
    pub end_timestamp: Option<u64>,
}

/// Mathematical model of a `SimilarJob`.
#[verifier::ext_equal]
pub struct SimilarJobView {
    pub id: u64,
    pub job_type_name: Seq<char>,
    pub platform: Seq<char>,
    pub result: Seq<char>,
    pub state: Seq<char>,
    pub push_id: u64,
    pub start_timestamp: Option<u64>,
    pub end_timestamp: Option<u64>,
}

impl View for SimilarJob {
    type V = SimilarJobView;

    open spec fn view(&self) -> SimilarJobView {
        SimilarJobView {
            id: self.id,
            job_type_name: self.job_type_name@,
            platform: self.platform@,
            result: self.result@,
            state: self.state@,
            push_id: self.push_id,
            start_timestamp: self.start_timestamp,
            end_timestamp: self.end_timestamp,
        }
    }
}

impl DeepView for SimilarJob {
    type V = SimilarJobView;

    open spec fn deep_view(&self) -> SimilarJobView {
        self.view()
    }
}

/// The raw reply of the similar-jobs endpoint.
#[derive(Debug, Clone, PartialEq, Eq)]
pub struct SimilarJobsResponse {
    pub results: Vec<SimilarJob>,
    pub meta: SimilarJobsMeta,
}

/// Metadata attached to a similar-jobs reply.
#[derive(Debug, Clone, PartialEq, Eq)]
pub struct SimilarJobsMeta {
    pub count: usize,
    pub repository: String,
}

/// The reply of the push-lookup endpoint.
#[derive(Debug, Clone, PartialEq, Eq)]
pub struct PushResponse {
    pub results: Vec<PushResult>,
}

/// One push in a push-lookup reply.
#[derive(Debug, Clone, PartialEq, Eq)]
pub struct PushResult {
    pub id: u64,
    pub revision: String,
}

/// The reply of the landing-job status endpoint.
#[derive(Debug, Clone, PartialEq, Eq)]
pub struct LandoJobResponse {
    pub id: u64,
    pub status: String,
    pub commit_id: Option<String>,
}

/// One log resource attached to a job detail.
#[derive(Debug, Clone, PartialEq, Eq)]
pub struct LogReference {
    pub name: String,
    pub url: String,
}

/// Mathematical model of a `LogReference`.
#[verifier::ext_equal]
pub struct LogReferenceView {
    pub name: Seq<char>,
    pub url: Seq<char>,
}

impl View for LogReference {
    type V = LogReferenceView;

    open spec fn view(&self) -> LogReferenceView {
        LogReferenceView { name: self.name@, url: self.url@ }
    }
}

impl DeepView for LogReference {
    type V = LogReferenceView;

    open spec fn deep_view(&self) -> LogReferenceView {
        self.view()
    }
}

/// The reply of the job-detail endpoint.
#[derive(Debug, Clone, PartialEq, Eq)]
pub struct JobDetail {
    pub id: u64,
    pub job_type_name: String,
    pub platform: String,
    pub result: String,
    pub logs: Vec<LogReference>,
}

/// The extended job-detail reply, with the task and retry identifiers
/// needed to reach the task-execution service.
#[derive(Debug, Clone, PartialEq, Eq)]
pub struct JobDetailExtended {
    pub id: u64,
    pub job_type_name: String,
    pub platform: String,
    pub result: String,
    pub logs: Vec<LogReference>,
    pub task_id: Option<String>,
    pub retry_id: Option<u64>,
}

/// One artifact in a task artifact listing.
#[derive(Debug, PartialEq, Eq)]
pub struct TaskclusterArtifact {
    pub name: String,
    pub storage_type: String,
    pub expires: String,
    pub content_type: Option<String>,
}

/// Mathematical model of a `TaskclusterArtifact`.
#[verifier::ext_equal]
pub struct TaskclusterArtifactView {
    pub name: Seq<char>,
    pub storage_type: Seq<char>,
    pub expires: Seq<char>,
    pub content_type: Option<Seq<char>>,
}

impl View for TaskclusterArtifact {
    type V = TaskclusterArtifactView;

    open spec fn view(&self) -> TaskclusterArtifactView {
        TaskclusterArtifactView {
            name: self.name@,
            storage_type: self.storage_type@,
            expires: self.expires@,
            content_type: self.content_type.deep_view(),
        }
    }
}

impl DeepView for TaskclusterArtifact {
    type V = TaskclusterArtifactView;

    open spec fn deep_view(&self) -> TaskclusterArtifactView {
        self.view()
    }
}

impl Clone for TaskclusterArtifact {
    /// Cloning keeps the model unchanged.
    fn clone(&self) -> (res: TaskclusterArtifact)
        ensures
            res@ == self@,
    {
        let res = TaskclusterArtifact {
            name: self.name.clone(),
            storage_type: self.storage_type.clone(),
            expires: self.expires.clone(),
            content_type: match &self.content_type {
                Some(c) => Some(c.clone()),
                None => None,
            },
        };
        proof {
            assert(res@ =~= self@);
        }
        res
    }
}

/// The reply of the task artifact-listing endpoint.
#[derive(Debug, Clone, PartialEq, Eq)]
pub struct TaskclusterArtifactsResponse {
    pub artifacts: Vec<TaskclusterArtifact>,
}

/// The framework name attached to a performance payload.
#[derive(Debug, Clone, PartialEq, Eq)]
pub struct PerfherderFramework {
    pub name: String,
}

/// The shape of the plain (non-grouped) structured output.
#[derive(Debug, Clone, PartialEq, Eq)]
pub struct JsonOutput {
    pub revision: String,
    pub push_id: u64,
    pub jobs: Vec<JobWithLogs>,
}

/// The shape of the grouped structured output.
#[derive(Debug, Clone, PartialEq, Eq)]
pub struct GroupedJsonOutput {
    pub revision: String,
    pub push_id: u64,
    pub grouped_failures: Vec<GroupedTestFailure>,
}

/// Which jobs the result filter keeps.
#[derive(Debug, Clone, PartialEq, Eq)]
pub enum MatchFilter {
    Failure,
    Success,
    All,
}

/// The supported grouping of failures.
#[derive(Debug, Clone, PartialEq, Eq)]
pub enum GroupBy {
    Test,
}

/// The resolved command-line arguments, as plain values.
#[derive(Debug, Clone)]
pub struct Args {
    pub input: Option<String>,
    pub repo: String,
    pub show_stack_traces: bool,
    pub filter: Option<String>,
    pub fetch_logs: bool,
    pub match_filter: MatchFilter,
    pub pattern: Option<String>,
    pub cache_dir: Option<String>,
    pub use_cache: bool,
    pub include_intermittent: bool,
    pub json: bool,
    pub watch: bool,
    pub watch_interval: u64,
    pub notify: bool,
    pub platform: Option<String>,
    pub duration_min: Option<u64>,
    pub group_by: Option<GroupBy>,
    pub compare: Option<String>,
    pub download_artifacts: bool,
    pub artifact_pattern: Option<String>,
    pub perf: bool,
    pub similar_history: Option<u64>,
    pub similar_count: usize,
    pub lando_job_id: Option<u64>,
}

/// One cell of a raw job-table row: the primitive kinds the normalizer
/// reads, with everything else folded into `Other`.
#[derive(Debug, Clone, PartialEq, Eq)]
pub enum RawValue {
    UInt(u64),
    Text(String),
    Other,
}

/// Mathematical model of a `RawValue`.
#[verifier::ext_equal]
pub enum RawValueView {
    UInt(u64),
    Text(Seq<char>),
    Other,
}

impl View for RawValue {
    type V = RawValueView;

    open spec fn view(&self) -> RawValueView {
        match self {
            RawValue::UInt(u) => RawValueView::UInt(*u),
            RawValue::Text(s) => RawValueView::Text(s@),
            RawValue::Other => RawValueView::Other,
        }
    }
}

impl DeepView for RawValue {
    type V = RawValueView;

    open spec fn deep_view(&self) -> RawValueView {
        self.view()
    }
}

/// The raw reply of the job-list endpoint: a name list giving each
/// column's meaning, and positional rows.
#[derive(Debug, Clone, PartialEq, Eq)]
pub struct JobsResponse {
    pub job_property_names: Vec<String>,
    pub results: Vec<Vec<RawValue>>,
}

} // verus!

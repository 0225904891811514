//! Hermetic incident-outcome corpus vocabulary: neutral case, runtime and
//! arm identities, fault families, expected outcomes, claims, and exact
//! recall summaries.

use vstd::prelude::*;

verus! {

/// Number of cases in the closed hermetic incident corpus.
pub const HERMETIC_INCIDENT_CASE_COUNT_V1: usize = 8;

/// Maximum bytes of one claim.
pub const MAX_HERMETIC_INCIDENT_CLAIM_BYTES_V1: usize = 256;

/// Maximum root-cause alternatives of one case.
pub const MAX_HERMETIC_INCIDENT_ROOT_ALTERNATIVES_V1: usize = 4;

/// Neutral public identities. Names deliberately encode no hidden cause.
#[derive(Clone, Copy, Debug, PartialEq, Eq, PartialOrd, Ord, Hash, Structural)]
pub enum HermeticIncidentCaseV1 {
    Case01,
    Case02,
    Case03,
    Case04,
    Case05,
    Case06,
    Case07,
    Case08,
}

impl HermeticIncidentCaseV1 {
    pub open spec fn spec_code(self) -> Seq<char> {
        match self {
            HermeticIncidentCaseV1::Case01 => "case_01_v1"@,
            HermeticIncidentCaseV1::Case02 => "case_02_v1"@,
            HermeticIncidentCaseV1::Case03 => "case_03_v1"@,
            HermeticIncidentCaseV1::Case04 => "case_04_v1"@,
            HermeticIncidentCaseV1::Case05 => "case_05_v1"@,
            HermeticIncidentCaseV1::Case06 => "case_06_v1"@,
            HermeticIncidentCaseV1::Case07 => "case_07_v1"@,
            HermeticIncidentCaseV1::Case08 => "case_08_v1"@,
        }
    }

    pub fn code(self) -> (r: &'static str)
        ensures
            r@ == self.spec_code(),
    {
        match self {
            HermeticIncidentCaseV1::Case01 => "case_01_v1",
            HermeticIncidentCaseV1::Case02 => "case_02_v1",
            HermeticIncidentCaseV1::Case03 => "case_03_v1",
            HermeticIncidentCaseV1::Case04 => "case_04_v1",
            HermeticIncidentCaseV1::Case05 => "case_05_v1",
            HermeticIncidentCaseV1::Case06 => "case_06_v1",
            HermeticIncidentCaseV1::Case07 => "case_07_v1",
            HermeticIncidentCaseV1::Case08 => "case_08_v1",
        }
    }
}
/// Runtime family of one incident.
#[derive(Clone, Copy, Debug, PartialEq, Eq, PartialOrd, Ord, Hash, Structural)]
pub enum HermeticIncidentRuntimeV1 {
    Python,
    Jvm,
    DotNet,
    JavaScript,
    Rust,
    Go,
    Kubernetes,
    MultiService,
}

impl HermeticIncidentRuntimeV1 {
    pub open spec fn spec_code(self) -> Seq<char> {
        match self {
            HermeticIncidentRuntimeV1::Python => "python"@,
            HermeticIncidentRuntimeV1::Jvm => "jvm"@,
            HermeticIncidentRuntimeV1::DotNet => "dotnet"@,
            HermeticIncidentRuntimeV1::JavaScript => "javascript"@,
            HermeticIncidentRuntimeV1::Rust => "rust"@,
            HermeticIncidentRuntimeV1::Go => "go"@,
            HermeticIncidentRuntimeV1::Kubernetes => "kubernetes"@,
            HermeticIncidentRuntimeV1::MultiService => "multi_service"@,
        }
    }

    pub fn code(self) -> (r: &'static str)
        ensures
            r@ == self.spec_code(),
    {
        match self {
            HermeticIncidentRuntimeV1::Python => "python",
            HermeticIncidentRuntimeV1::Jvm => "jvm",
            HermeticIncidentRuntimeV1::DotNet => "dotnet",
            HermeticIncidentRuntimeV1::JavaScript => "javascript",
            HermeticIncidentRuntimeV1::Rust => "rust",
            HermeticIncidentRuntimeV1::Go => "go",
            HermeticIncidentRuntimeV1::Kubernetes => "kubernetes",
            HermeticIncidentRuntimeV1::MultiService => "multi_service",
        }
    }
}
/// Benchmark arm evaluated on the corpus.
#[derive(Clone, Copy, Debug, PartialEq, Eq, PartialOrd, Ord, Hash, Structural)]
pub enum HermeticIncidentArmV1 {
    FullThreeLane,
    RawChronological,
    GrepHeadTail,
    QuotaHybrid,
    Bm25fWholeEvent,
}

impl HermeticIncidentArmV1 {
    pub open spec fn spec_code(self) -> Seq<char> {
        match self {
            HermeticIncidentArmV1::FullThreeLane => "production_full_three_lane_v1"@,
            HermeticIncidentArmV1::RawChronological => "raw_chronological_v1"@,
            HermeticIncidentArmV1::GrepHeadTail => "grep_head_tail_v1"@,
            HermeticIncidentArmV1::QuotaHybrid => "quota_hybrid_v1"@,
            HermeticIncidentArmV1::Bm25fWholeEvent => "bm25f_whole_event_v1"@,
        }
    }

    pub fn code(self) -> (r: &'static str)
        ensures
            r@ == self.spec_code(),
    {
        match self {
            HermeticIncidentArmV1::FullThreeLane => "production_full_three_lane_v1",
            HermeticIncidentArmV1::RawChronological => "raw_chronological_v1",
            HermeticIncidentArmV1::GrepHeadTail => "grep_head_tail_v1",
            HermeticIncidentArmV1::QuotaHybrid => "quota_hybrid_v1",
            HermeticIncidentArmV1::Bm25fWholeEvent => "bm25f_whole_event_v1",
        }
    }
}
/// Contentless corpus construction and evaluation failures.
#[derive(Clone, Copy, Debug, PartialEq, Eq, Structural)]
pub enum HermeticIncidentCorpusErrorV1 {
    FixtureInvariant,
    ArithmeticOverflow,
    DigestLengthOverflow,
    LedgerBuild,
    Compiler,
    FullMethodNeedsMore,
    Baseline,
    ExactOracle,
    ExactOracleIneligible,
    DuplicateCase,
    MissingCase,
    ForeignCase,
    AnnotationBounds,
    EvidenceTargetMismatch,
    OutcomeMismatch,
    AbstentionAuthorityMismatch,
    ClaimPolicyConflict,
}

impl HermeticIncidentCorpusErrorV1 {
    pub open spec fn spec_code(self) -> Seq<char> {
        match self {
            HermeticIncidentCorpusErrorV1::FixtureInvariant => "EVIDENTRAIL_BENCH_INCIDENT_FIXTURE"@,
            HermeticIncidentCorpusErrorV1::ArithmeticOverflow => "EVIDENTRAIL_BENCH_INCIDENT_ARITHMETIC"@,
            HermeticIncidentCorpusErrorV1::DigestLengthOverflow => "EVIDENTRAIL_BENCH_INCIDENT_DIGEST_LENGTH"@,
            HermeticIncidentCorpusErrorV1::LedgerBuild => "EVIDENTRAIL_BENCH_INCIDENT_LEDGER"@,
            HermeticIncidentCorpusErrorV1::Compiler => "EVIDENTRAIL_BENCH_INCIDENT_COMPILER"@,
            HermeticIncidentCorpusErrorV1::FullMethodNeedsMore => "EVIDENTRAIL_BENCH_INCIDENT_FULL_NEEDS_MORE"@,
            HermeticIncidentCorpusErrorV1::Baseline => "EVIDENTRAIL_BENCH_INCIDENT_BASELINE"@,
            HermeticIncidentCorpusErrorV1::ExactOracle => "EVIDENTRAIL_BENCH_INCIDENT_EXACT_ORACLE"@,
            HermeticIncidentCorpusErrorV1::ExactOracleIneligible => "EVIDENTRAIL_BENCH_INCIDENT_EXACT_ORACLE_INELIGIBLE"@,
            HermeticIncidentCorpusErrorV1::DuplicateCase => "EVIDENTRAIL_BENCH_INCIDENT_DUPLICATE_CASE"@,
            HermeticIncidentCorpusErrorV1::MissingCase => "EVIDENTRAIL_BENCH_INCIDENT_MISSING_CASE"@,
            HermeticIncidentCorpusErrorV1::ForeignCase => "EVIDENTRAIL_BENCH_INCIDENT_FOREIGN_CASE"@,
            HermeticIncidentCorpusErrorV1::AnnotationBounds => "EVIDENTRAIL_BENCH_INCIDENT_ANNOTATION_BOUNDS"@,
            HermeticIncidentCorpusErrorV1::EvidenceTargetMismatch => "EVIDENTRAIL_BENCH_INCIDENT_EVIDENCE_TARGET"@,
            HermeticIncidentCorpusErrorV1::OutcomeMismatch => "EVIDENTRAIL_BENCH_INCIDENT_OUTCOME_MISMATCH"@,
            HermeticIncidentCorpusErrorV1::AbstentionAuthorityMismatch => "EVIDENTRAIL_BENCH_INCIDENT_ABSTENTION_AUTHORITY"@,
            HermeticIncidentCorpusErrorV1::ClaimPolicyConflict => "EVIDENTRAIL_BENCH_INCIDENT_CLAIM_POLICY_CONFLICT"@,
        }
    }

    pub fn code(self) -> (r: &'static str)
        ensures
            r@ == self.spec_code(),
    {
        match self {
            HermeticIncidentCorpusErrorV1::FixtureInvariant => "EVIDENTRAIL_BENCH_INCIDENT_FIXTURE",
            HermeticIncidentCorpusErrorV1::ArithmeticOverflow => "EVIDENTRAIL_BENCH_INCIDENT_ARITHMETIC",
            HermeticIncidentCorpusErrorV1::DigestLengthOverflow => "EVIDENTRAIL_BENCH_INCIDENT_DIGEST_LENGTH",
            HermeticIncidentCorpusErrorV1::LedgerBuild => "EVIDENTRAIL_BENCH_INCIDENT_LEDGER",
            HermeticIncidentCorpusErrorV1::Compiler => "EVIDENTRAIL_BENCH_INCIDENT_COMPILER",
            HermeticIncidentCorpusErrorV1::FullMethodNeedsMore => "EVIDENTRAIL_BENCH_INCIDENT_FULL_NEEDS_MORE",
            HermeticIncidentCorpusErrorV1::Baseline => "EVIDENTRAIL_BENCH_INCIDENT_BASELINE",
            HermeticIncidentCorpusErrorV1::ExactOracle => "EVIDENTRAIL_BENCH_INCIDENT_EXACT_ORACLE",
            HermeticIncidentCorpusErrorV1::ExactOracleIneligible => "EVIDENTRAIL_BENCH_INCIDENT_EXACT_ORACLE_INELIGIBLE",
            HermeticIncidentCorpusErrorV1::DuplicateCase => "EVIDENTRAIL_BENCH_INCIDENT_DUPLICATE_CASE",
            HermeticIncidentCorpusErrorV1::MissingCase => "EVIDENTRAIL_BENCH_INCIDENT_MISSING_CASE",
            HermeticIncidentCorpusErrorV1::ForeignCase => "EVIDENTRAIL_BENCH_INCIDENT_FOREIGN_CASE",
            HermeticIncidentCorpusErrorV1::AnnotationBounds => "EVIDENTRAIL_BENCH_INCIDENT_ANNOTATION_BOUNDS",
            HermeticIncidentCorpusErrorV1::EvidenceTargetMismatch => "EVIDENTRAIL_BENCH_INCIDENT_EVIDENCE_TARGET",
            HermeticIncidentCorpusErrorV1::OutcomeMismatch => "EVIDENTRAIL_BENCH_INCIDENT_OUTCOME_MISMATCH",
            HermeticIncidentCorpusErrorV1::AbstentionAuthorityMismatch => "EVIDENTRAIL_BENCH_INCIDENT_ABSTENTION_AUTHORITY",
            HermeticIncidentCorpusErrorV1::ClaimPolicyConflict => "EVIDENTRAIL_BENCH_INCIDENT_CLAIM_POLICY_CONFLICT",
        }
    }
}
/// Hidden fault family of one incident.
#[derive(Clone, Copy, Debug, PartialEq, Eq, PartialOrd, Ord, Hash, Structural)]
pub enum HermeticIncidentFaultFamilyV1 {
    DeploymentSecretMount,
    ExecutorSaturation,
    CertificateExpiry,
    EventLoopBlocking,
    BinaryFramingOverflow,
    DnsSearchConfiguration,
    InsufficientAuthorizedScope,
    UnobservableDeploymentOrdering,
}

impl HermeticIncidentFaultFamilyV1 {
    pub open spec fn spec_code(self) -> Seq<char> {
        match self {
            HermeticIncidentFaultFamilyV1::DeploymentSecretMount => "deployment_secret_mount_v1"@,
            HermeticIncidentFaultFamilyV1::ExecutorSaturation => "executor_saturation_v1"@,
            HermeticIncidentFaultFamilyV1::CertificateExpiry => "certificate_expiry_v1"@,
            HermeticIncidentFaultFamilyV1::EventLoopBlocking => "event_loop_blocking_v1"@,
            HermeticIncidentFaultFamilyV1::BinaryFramingOverflow => "binary_framing_overflow_v1"@,
            HermeticIncidentFaultFamilyV1::DnsSearchConfiguration => "dns_search_configuration_v1"@,
            HermeticIncidentFaultFamilyV1::InsufficientAuthorizedScope => "insufficient_authorized_scope_v1"@,
            HermeticIncidentFaultFamilyV1::UnobservableDeploymentOrdering => "unobservable_deployment_ordering_v1"@,
        }
    }

    pub fn code(self) -> (r: &'static str)
        ensures
            r@ == self.spec_code(),
    {
        match self {
            HermeticIncidentFaultFamilyV1::DeploymentSecretMount => "deployment_secret_mount_v1",
            HermeticIncidentFaultFamilyV1::ExecutorSaturation => "executor_saturation_v1",
            HermeticIncidentFaultFamilyV1::CertificateExpiry => "certificate_expiry_v1",
            HermeticIncidentFaultFamilyV1::EventLoopBlocking => "event_loop_blocking_v1",
            HermeticIncidentFaultFamilyV1::BinaryFramingOverflow => "binary_framing_overflow_v1",
            HermeticIncidentFaultFamilyV1::DnsSearchConfiguration => "dns_search_configuration_v1",
            HermeticIncidentFaultFamilyV1::InsufficientAuthorizedScope => "insufficient_authorized_scope_v1",
            HermeticIncidentFaultFamilyV1::UnobservableDeploymentOrdering => "unobservable_deployment_ordering_v1",
        }
    }
}
/// Why a case expects abstention rather than a diagnosis.
#[derive(Clone, Debug)]
pub enum HermeticIncidentAbstentionAuthorityV1 {
    MissingAuthorizedScopedComponent(Vec<u8>),
    PredecessorOrderingUnobservable,
}

impl HermeticIncidentAbstentionAuthorityV1 {
    pub open spec fn spec_code(&self) -> Seq<char> {
        match self {
            HermeticIncidentAbstentionAuthorityV1::MissingAuthorizedScopedComponent(_) => "partial_acquisition_missing_scoped_component_v1"@,
            HermeticIncidentAbstentionAuthorityV1::PredecessorOrderingUnobservable => "unknown_acquisition_predecessor_order_unobservable_v1"@,
        }
    }

    pub fn code(&self) -> (r: &'static str)
        ensures
            r@ == self.spec_code(),
    {
        match self {
            HermeticIncidentAbstentionAuthorityV1::MissingAuthorizedScopedComponent(_) => "partial_acquisition_missing_scoped_component_v1",
            HermeticIncidentAbstentionAuthorityV1::PredecessorOrderingUnobservable => "unknown_acquisition_predecessor_order_unobservable_v1",
        }
    }
}

/// Whether a case expects a diagnosis or an authorized abstention.
#[derive(Clone, Debug)]
pub enum HermeticIncidentExpectedOutcomeV1 {
    Diagnose,
    Abstain(HermeticIncidentAbstentionAuthorityV1),
}

impl HermeticIncidentExpectedOutcomeV1 {
    pub open spec fn spec_code(&self) -> Seq<char> {
        match self {
            HermeticIncidentExpectedOutcomeV1::Diagnose => "diagnosis_expected_v1"@,
            HermeticIncidentExpectedOutcomeV1::Abstain(_) => "abstention_expected_v1"@,
        }
    }

    pub fn code(&self) -> (r: &'static str)
        ensures
            r@ == self.spec_code(),
    {
        match self {
            HermeticIncidentExpectedOutcomeV1::Diagnose => "diagnosis_expected_v1",
            HermeticIncidentExpectedOutcomeV1::Abstain(_) => "abstention_expected_v1",
        }
    }

    /// Only a case that expects a diagnosis is scored on diagnosis.
    pub fn diagnosis_scoring_eligible(&self) -> (r: bool)
        ensures
            r == (self is Diagnose),
    {
        match self {
            HermeticIncidentExpectedOutcomeV1::Diagnose => true,
            HermeticIncidentExpectedOutcomeV1::Abstain(_) => false,
        }
    }
}

/// One bounded, non-empty claim.
#[derive(Clone, Debug)]
pub struct HermeticIncidentClaimV1(pub Vec<u8>);

impl HermeticIncidentClaimV1 {
    pub fn new(bytes: Vec<u8>) -> (r: Result<Self, HermeticIncidentCorpusErrorV1>)
        ensures
            r is Ok <==> (bytes.len() != 0 && bytes.len() <= MAX_HERMETIC_INCIDENT_CLAIM_BYTES_V1),
            r matches Ok(c) ==> c.0@ == bytes@,
            r matches Err(e) ==> e == HermeticIncidentCorpusErrorV1::AnnotationBounds,
    {
        if bytes.len() == 0 || bytes.len() > MAX_HERMETIC_INCIDENT_CLAIM_BYTES_V1 {
            return Err(HermeticIncidentCorpusErrorV1::AnnotationBounds);
        }
        Ok(HermeticIncidentClaimV1(bytes))
    }

    pub fn as_bytes(&self) -> (r: &[u8])
        ensures
            r@ == self.0@,
    {
        self.0.as_slice()
    }
}

/// One root-cause alternative: a small set of distinct claims.
#[derive(Clone, Debug)]
pub struct HermeticIncidentRootAlternativeV1 {
    pub claims: Vec<HermeticIncidentClaimV1>,
}

impl HermeticIncidentRootAlternativeV1 {
    pub fn claims(&self) -> (r: &[HermeticIncidentClaimV1])
        ensures
            r@ == self.claims@,
    {
        self.claims.as_slice()
    }
}

/// Exact weighted recall of one case.
#[derive(Clone, Copy, Debug, PartialEq, Eq, Structural)]
pub struct ExactHermeticIncidentRecallV1 {
    pub satisfied_weight_micros: u64,
    pub total_weight_micros: u64,
    pub satisfied_requirement_count: u64,
    pub requirement_count: u64,
}

impl ExactHermeticIncidentRecallV1 {
    pub fn satisfied_requirement_count(self) -> (r: u64)
        ensures
            r == self.satisfied_requirement_count,
    {
        self.satisfied_requirement_count
    }

    pub fn requirement_count(self) -> (r: u64)
        ensures
            r == self.requirement_count,
    {
        self.requirement_count
    }

    pub fn exact_ratio(self) -> (r: (u64, u64))
        ensures
            r == (self.satisfied_weight_micros, self.total_weight_micros),
    {
        (self.satisfied_weight_micros, self.total_weight_micros)
    }

    pub fn is_perfect(self) -> (r: bool)
        ensures
            r == (self.satisfied_weight_micros == self.total_weight_micros),
    {
        self.satisfied_weight_micros == self.total_weight_micros
    }

}
/// Exact recall of one arm across the corpus.
#[derive(Clone, Copy, Debug, PartialEq, Eq, Structural)]
pub struct HermeticIncidentArmSummaryV1 {
    pub arm: HermeticIncidentArmV1,
    pub satisfied_weight_micros: u64,
    pub total_weight_micros: u64,
    pub perfect_case_count: u64,
}

impl HermeticIncidentArmSummaryV1 {
    pub fn arm(self) -> (r: HermeticIncidentArmV1)
        ensures
            r == self.arm,
    {
        self.arm
    }

    pub fn exact_ratio(self) -> (r: (u64, u64))
        ensures
            r == (self.satisfied_weight_micros, self.total_weight_micros),
    {
        (self.satisfied_weight_micros, self.total_weight_micros)
    }

    pub fn perfect_case_count(self) -> (r: u64)
        ensures
            r == self.perfect_case_count,
    {
        self.perfect_case_count
    }
}

} // verus!

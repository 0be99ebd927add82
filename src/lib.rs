//! Pedagogical insights computed from gradebook records: risk of each
//! student, difficulty of each topic, quality of each assessment item,
//! learning progression and performance patterns.
//!
//! Percentages are exact fixed-point integers in hundredths of a percent, and
//! fractions in `[0, 1]` use the same scale (`stats::SCALE`).

pub mod cohort;
pub mod patterns;
pub mod progression;
pub mod quality;
pub mod records;
pub mod risk;
pub mod stats;
pub mod text;
pub mod topics;

pub use patterns::{analyze_performance_patterns, PerformancePattern, PerformancePatternsResult, StudentPattern};
pub use progression::{analyze_learning_progression, LearningProgressionResult, ProgressionMetrics, StudentProgression};
pub use quality::{analyze_assessment_quality, AssessmentQualityResult, ItemAnalysis};
pub use records::{Assignment, Grade, Student};
pub use risk::{analyze_early_intervention, EarlyInterventionResult, RiskAssessment};
pub use topics::{analyze_chapter_difficulty, ChapterDifficultyResult, ChapterStats};

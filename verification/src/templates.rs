//! The templates that built pages are rendered with.
use vstd::prelude::*;

verus! {

/// Template of a single-page application.
#[derive(Clone, Copy, Debug, Default, PartialEq, Eq, Structural)]
pub enum SpaBuildTemplate {
    #[default]
    SpaUnknown,
    SpaNotFound,
    SpaHomepage,
    SpaObservatoryLanding,
    SpaObservatoryAnalyze,
    SpaAdvertise,
    SpaPlusLanding,
    SpaPlusCollections,
    SpaPlusCollectionsFrequentlyViewed,
    SpaPlusUpdates,
    SpaPlusSettings,
    SpaPlusAiHelp,
    SpaPlay,
    SpaSearch,
}

/// Renderer of documents.
#[derive(Clone, Copy, Debug, PartialEq, Eq, Structural)]
pub enum DocPageRenderer {
    Doc,
}

/// Renderer of blog pages.
#[derive(Clone, Copy, Debug, PartialEq, Eq, Structural)]
pub enum BlogRenderer {
    BlogPost,
    BlogIndex,
}

/// Renderer of contributor spotlights.
#[derive(Clone, Copy, Debug, PartialEq, Eq, Structural)]
pub enum ContributorSpotlightRenderer {
    ContributorSpotlight,
}

/// Renderer of generic pages.
#[derive(Clone, Copy, Debug, PartialEq, Eq, Structural)]
pub enum GenericRenderer {
    GenericDoc,
    GenericAbout,
    GenericCommunity,
}

/// Renderer of single-page applications.
#[derive(Clone, Copy, Debug, PartialEq, Eq, Structural)]
pub enum SpaRenderer {
    SpaUnknown,
    SpaNotFound,
    SpaObservatoryLanding,
    SpaObservatoryAnalyze,
    SpaAdvertise,
    SpaPlusLanding,
    SpaPlusCollections,
    SpaPlusCollectionsFrequentlyViewed,
    SpaPlusUpdates,
    SpaPlusSettings,
    SpaPlusAiHelp,
    SpaPlay,
    SpaSearch,
}

/// Renderer of the home page.
#[derive(Clone, Copy, Debug, PartialEq, Eq, Structural)]
pub enum HomeRenderer {
    Homepage,
}

/// Renderer of curriculum pages.
#[derive(Clone, Copy, Debug, PartialEq, Eq, Structural)]
pub enum CurriculumRenderer {
    CurriculumDefault,
    CurriculumModule,
    CurriculumOverview,
    CurriculumLanding,
    CurriculumAbout,
}

} // verus!

//! What is known of a subgraph while it is indexed.
use crate::start::ManifestTemplate;
use vstd::prelude::*;

verus! {

/// Read only inputs that are needed while indexing a subgraph. `P` is a template that data
/// sources can be made from.
pub struct IndexingInputs<P> {
    pub deployment_id: String,
    pub network_name: String,
    pub start_blocks: Vec<u64>,
    /// Whether all blocks have to come with their calls.
    pub templates_use_calls: bool,
    pub top_level_templates: Vec<ManifestTemplate<P>>,
}

/// State that changes while indexing a subgraph. `D` is a data source and `C` the contents
/// of the entity cache.
pub struct IndexingState<D, C> {
    /// The data sources that the log, call and block filters of the block stream are made
    /// from: those of the first list, extended by those of the second, and so on.
    pub filters: Vec<Vec<D>>,
    /// How often the block stream was built anew.
    pub restarts: u64,
    /// The entity cache between two blocks; `None` is an empty one.
    pub entity_lfu_cache: Option<C>,
}

pub struct IndexingContext<D, P, C> {
    pub inputs: IndexingInputs<P>,
    pub state: IndexingState<D, C>,
}

/// What an indexing context stands for.
pub struct ContextModel<D, P, C> {
    pub inputs: IndexingInputs<P>,
    pub filters: Seq<Seq<D>>,
    pub restarts: u64,
    pub entity_lfu_cache: Option<C>,
}

impl<D, P, C> IndexingContext<D, P, C> {
    pub open spec fn view(&self) -> ContextModel<D, P, C> {
        ContextModel {
            inputs: self.inputs,
            filters: self.state.filters@.map_values(|sources: Vec<D>| sources@),
            restarts: self.state.restarts,
            entity_lfu_cache: self.state.entity_lfu_cache,
        }
    }

    /// Merges the filters for new data sources into those of the block stream.
    pub fn extend_filters(&mut self, data_sources: Vec<D>)
        ensures
            final(self)@ == (ContextModel {
                filters: old(self)@.filters.push(data_sources@),
                ..old(self)@
            }),
    {
        self.state.filters.push(data_sources);
        assert(self@.filters =~= old(self)@.filters.push(data_sources@));
    }

    /// Takes the entity cache out, and leaves an empty one in its place.
    pub fn take_entity_cache(&mut self) -> (cache: Option<C>)
        ensures
            cache == old(self)@.entity_lfu_cache,
            final(self)@ == (ContextModel { entity_lfu_cache: None, ..old(self)@ }),
    {
        self.state.entity_lfu_cache.take()
    }

    /// Puts an entity cache in.
    pub fn put_entity_cache(&mut self, cache: C)
        ensures
            final(self)@ == (ContextModel { entity_lfu_cache: Some(cache), ..old(self)@ }),
    {
        self.state.entity_lfu_cache = Some(cache);
    }
}

} // verus!

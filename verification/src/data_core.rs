//! The session: a loaded document, its index, and what can be asked of them.

use vstd::prelude::*;
use crate::classifier::{detect_fields, fields_of, first_fields, is_field_listing};
use crate::json::{document_of, json_of, parse_value, parsed_json, pretty_text_of, Json};
use crate::jsonpath::texts_of;
use crate::pipeline::{
    build_intermediate, intermediate_reports, intermediate_result, progress_views, ProgressEvent,
};
use crate::resolver::{extract_pretty, extraction, render, replace_first, replaced, text_result};
use crate::search::{search_result, search_results};
use crate::shadow_tree::{
    build_shadow_tree, index_of, lemma_flatten_as_built, root_address, structure_of, JsonTreeNode,
    NodeView, views,
};
use crate::text::{chars_of, extend_str, string_of};
use crate::visibility::{
    apply_filter, expansion_view, filter_view, lemma_structure_kept, recompute_visibility,
    toggle_expanded, toggled_view,
};
use crate::writeback::{apply_corrections, writeback_outcome, WritebackReport};

verus! {

/// Why an operation of the session failed.
#[derive(Debug)]
pub enum AppError {
    /// Reading or writing outside the session failed; the text says how.
    Io(String),
    /// A text is not JSON, or a document cannot be written as JSON; the text
    /// is the message of the parser or the writer.
    Parse(String),
    /// An address was refused, matches nothing, or cannot be assigned to.
    JsonPath(String),
    /// The session is not in the state that the operation needs.
    State(String),
}

/// The mathematical content of an error.
pub enum AppErrorView {
    Io(Seq<char>),
    Parse(Seq<char>),
    JsonPath(Seq<char>),
    State(Seq<char>),
}

impl View for AppError {
    type V = AppErrorView;

    open spec fn view(&self) -> AppErrorView {
        match self {
            AppError::Io(m) => AppErrorView::Io(m@),
            AppError::Parse(m) => AppErrorView::Parse(m@),
            AppError::JsonPath(m) => AppErrorView::JsonPath(m@),
            AppError::State(m) => AppErrorView::State(m@),
        }
    }
}

/// The text of an error: what kind of error it is, and what it says.
pub open spec fn message_of(e: AppErrorView) -> Seq<char> {
    match e {
        AppErrorView::Io(m) => "IO失败: "@ + m,
        AppErrorView::Parse(m) => "JSON解析失败: "@ + m,
        AppErrorView::JsonPath(m) => "JSONPath错误: "@ + m,
        AppErrorView::State(m) => "状态错误: "@ + m,
    }
}

fn prefixed(prefix: &str, rest: &str) -> (r: String)
    ensures
        r@ == prefix@ + rest@,
{
    let mut chars = chars_of(prefix);
    extend_str(&mut chars, rest);
    string_of(&chars)
}

impl AppError {
    /// The text of the error.
    pub fn message(&self) -> (r: String)
        ensures
            r@ == message_of(self@),
    {
        match self {
            AppError::Io(m) => prefixed("IO失败: ", m.as_str()),
            AppError::Parse(m) => prefixed("JSON解析失败: ", m.as_str()),
            AppError::JsonPath(m) => prefixed("JSONPath错误: ", m.as_str()),
            AppError::State(m) => prefixed("状态错误: ", m.as_str()),
        }
    }
}

/// The message of the error for an operation that needs a document when none
/// is loaded.
pub open spec fn not_loaded_text() -> Seq<char> {
    "DOM尚未加载"@
}

/// The error for an operation that needs a document when none is loaded.
pub fn not_loaded() -> (e: AppError)
    ensures
        e@ == AppErrorView::State(not_loaded_text()),
{
    AppError::State("DOM尚未加载".to_string())
}

/// The session: the document, if one is loaded, its index, and where the
/// document came from.
#[derive(Debug)]
pub struct AppState {
    /// Where the document was last loaded from.
    pub source_path: Option<String>,
    /// Where the document is written back to.
    pub original_file_path: Option<String>,
    /// The document.
    pub dom: Option<serde_json::Value>,
    /// The index of the document.
    pub tree_flat: Vec<JsonTreeNode>,
}

/// The view of a text that may be absent.
pub open spec fn text_view(t: Option<String>) -> Option<Seq<char>> {
    match t {
        Some(s) => Some(s@),
        None => None,
    }
}

impl Default for AppState {
    /// The empty session: no document, an empty index, no location.
    fn default() -> (s: Self)
        ensures
            s.dom is None,
            s.tree_flat@.len() == 0,
            s.source_path is None,
            s.original_file_path is None,
    {
        AppState { source_path: None, original_file_path: None, dom: None, tree_flat: Vec::new() }
    }
}

impl AppState {
    /// The structure of the loaded document, if one is loaded.
    pub open spec fn document(&self) -> Option<Json> {
        document_of(self.dom)
    }

    /// The index, as a sequence of entries.
    pub open spec fn index(&self) -> Seq<NodeView> {
        views(self.tree_flat@)
    }

    /// Whether the index is that of the document, whatever is expanded or
    /// shown. Every operation of the session that finds it so leaves it so.
    pub open spec fn consistent(&self) -> bool {
        match self.document() {
            Some(j) => structure_of(self.index()) == index_of(j),
            None => true,
        }
    }

    /// Installs the document that `text` denotes, read from the location
    /// `p`, and builds its index anew. If the text is not JSON, the session
    /// is left as it was.
    pub fn load_file(&mut self, p: &str, text: &str) -> (r: Result<(), AppError>)
        ensures
            match parsed_json(text@) {
                Ok(j) => {
                    &&& r is Ok
                    &&& final(self).document() == Some(j)
                    &&& final(self).index() == index_of(j)
                    &&& final(self).consistent()
                    &&& text_view(final(self).source_path) == Some(p@)
                    &&& text_view(final(self).original_file_path) == Some(p@)
                },
                Err(e) => r is Err && r->Err_0@ == AppErrorView::Parse(e) && *final(self) == *old(
                    self,
                ),
            },
    {
        let dom = match parse_value(text) {
            Ok(dom) => dom,
            Err(e) => {
                return Err(AppError::Parse(e));
            },
        };
        self.tree_flat = build_shadow_tree(&dom);
        self.source_path = Some(p.to_string());
        self.original_file_path = Some(p.to_string());
        proof {
            lemma_flatten_as_built(parsed_json(text@)->Ok_0, root_address(), root_address(), 0);
        }
        self.dom = Some(dom);
        Ok(())
    }

    /// Installs a document in place of the one that is loaded, if one is, and
    /// builds its index anew. Where the document came from stays as it was.
    pub fn install_document(&mut self, doc: serde_json::Value)
        ensures
            final(self).document() == Some(json_of(doc)),
            final(self).index() == index_of(json_of(doc)),
            final(self).consistent(),
            final(self).source_path == old(self).source_path,
            final(self).original_file_path == old(self).original_file_path,
    {
        self.tree_flat = build_shadow_tree(&doc);
        proof {
            lemma_flatten_as_built(json_of(doc), root_address(), root_address(), 0);
        }
        self.dom = Some(doc);
    }

    /// The first value that an address selects in the document, as indented
    /// text.
    ///
    /// Fails where no document is loaded, where the address is refused, and
    /// where it selects nothing.
    pub fn extract_subtree_pretty(&self, json_path: &str) -> (r: Result<String, AppError>)
        ensures
            match self.document() {
                None => r is Err && r->Err_0@ == AppErrorView::State(not_loaded_text()),
                Some(j) => text_result(r, extraction(j, json_path@)),
            },
    {
        match &self.dom {
            Some(dom) => extract_pretty(dom, json_path),
            None => Err(not_loaded()),
        }
    }

    /// Replaces the value at the first place that an address selects by the
    /// string `new_json`, stored as it is, and builds the index anew.
    ///
    /// Fails where no document is loaded, where the address is refused,
    /// where it selects nothing, and where the place cannot be assigned to.
    /// The session is then left as it was.
    pub fn update_node_from_str(&mut self, json_path: &str, new_json: &str) -> (r: Result<
        (),
        AppError,
    >)
        ensures
            match old(self).document() {
                None => r is Err && r->Err_0@ == AppErrorView::State(not_loaded_text())
                    && *final(self) == *old(self),
                Some(j) => match replaced(j, json_path@, new_json@) {
                    Ok(changed) => {
                        &&& r is Ok
                        &&& final(self).document() == Some(changed)
                        &&& final(self).index() == index_of(changed)
                        &&& final(self).consistent()
                        &&& final(self).source_path == old(self).source_path
                        &&& final(self).original_file_path == old(self).original_file_path
                    },
                    Err(e) => r is Err && r->Err_0@ == e && *final(self) == *old(self),
                },
            },
    {
        let mut dom = match self.dom.take() {
            Some(dom) => dom,
            None => {
                return Err(not_loaded());
            },
        };
        match replace_first(&mut dom, json_path, new_json) {
            Ok(()) => {
                self.tree_flat = build_shadow_tree(&dom);
                proof {
                    lemma_flatten_as_built(json_of(dom), root_address(), root_address(), 0);
                }
                self.dom = Some(dom);
                Ok(())
            },
            Err(e) => {
                self.dom = Some(dom);
                Err(e)
            },
        }
    }

    /// The same as [`AppState::update_node_from_str`].
    pub fn update_json_value(&mut self, path: &str, new_value: &str) -> (r: Result<(), AppError>)
        ensures
            match old(self).document() {
                None => r is Err && r->Err_0@ == AppErrorView::State(not_loaded_text())
                    && *final(self) == *old(self),
                Some(j) => match replaced(j, path@, new_value@) {
                    Ok(changed) => {
                        &&& r is Ok
                        &&& final(self).document() == Some(changed)
                        &&& final(self).index() == index_of(changed)
                        &&& final(self).consistent()
                        &&& final(self).source_path == old(self).source_path
                        &&& final(self).original_file_path == old(self).original_file_path
                    },
                    Err(e) => r is Err && r->Err_0@ == e && *final(self) == *old(self),
                },
            },
    {
        self.update_node_from_str(path, new_value)
    }

    /// The whole document as indented text, as it is written when the
    /// document is saved.
    pub fn document_text(&self) -> (r: Result<String, AppError>)
        ensures
            match self.document() {
                None => r is Err && r->Err_0@ == AppErrorView::State(not_loaded_text()),
                Some(j) => match pretty_text_of(j) {
                    Ok(text) => r is Ok && r->Ok_0@ == text,
                    Err(e) => r is Err && r->Err_0@ == AppErrorView::Parse(e),
                },
            },
    {
        match &self.dom {
            Some(dom) => render(dom),
            None => Err(not_loaded()),
        }
    }

    /// Sets the visibility of every entry by a filter, whatever it was
    /// before: with an empty filter every entry is shown, otherwise exactly
    /// the entries whose address or name contains the filter text.
    pub fn apply_search_filter(&mut self, filter: &str)
        ensures
            final(self).index() == filter_view(old(self).index(), filter@),
            filter@.len() == 0 ==> forall|j: int|
                0 <= j < final(self).tree_flat.len() ==> (#[trigger] final(self).tree_flat@[j]).visible,
            final(self).dom == old(self).dom,
            final(self).source_path == old(self).source_path,
            final(self).original_file_path == old(self).original_file_path,
            old(self).consistent() ==> final(self).consistent(),
    {
        proof {
            lemma_structure_kept(self.index(), filter@, filter@);
        }
        apply_filter(&mut self.tree_flat, filter);
    }

    /// Flips the expansion flag of the first entry at the given address, if
    /// there is one, and recomputes the visibility of every entry from the
    /// expansion flags.
    pub fn toggle_node_expanded(&mut self, path: &str)
        ensures
            final(self).index() == expansion_view(toggled_view(old(self).index(), path@)),
            final(self).dom == old(self).dom,
            final(self).source_path == old(self).source_path,
            final(self).original_file_path == old(self).original_file_path,
            old(self).consistent() ==> final(self).consistent(),
    {
        proof {
            lemma_structure_kept(self.index(), path@, path@);
            lemma_structure_kept(toggled_view(self.index(), path@), path@, path@);
        }
        toggle_expanded(&mut self.tree_flat, path);
    }

    /// Recomputes the visibility of every entry from the expansion flags:
    /// the first entry is shown; any other is shown exactly if a shown and
    /// expanded entry above it reveals it.
    pub fn update_visibility_by_expansion(&mut self)
        ensures
            final(self).index() == expansion_view(old(self).index()),
            final(self).dom == old(self).dom,
            final(self).source_path == old(self).source_path,
            final(self).original_file_path == old(self).original_file_path,
            old(self).consistent() ==> final(self).consistent(),
    {
        proof {
            lemma_structure_kept(self.index(), Seq::empty(), Seq::empty());
        }
        recompute_visibility(&mut self.tree_flat);
    }

    /// Builds the intermediate product for a filter from all the entries
    /// that the filter selects. See [`build_intermediate`].
    pub fn build_intermediate_stage2(&self, filter: &str, progress: &mut Vec<ProgressEvent>) -> (r:
        Result<String, AppError>)
        ensures
            intermediate_result(self.document(), self.index(), filter@, false, r),
            intermediate_reports(
                self.document(),
                self.index(),
                filter@,
                false,
                progress_views(old(progress)@),
                progress_views(final(progress)@),
            ),
    {
        build_intermediate(&self.dom, &self.tree_flat, filter, false, progress)
    }

    /// Builds the intermediate product for a filter, from the scalar entries
    /// whose name the filter selects if `leaf_nodes_only` is set. See
    /// [`build_intermediate`].
    pub fn build_intermediate_stage2_with_leaf_filter(
        &self,
        filter: &str,
        leaf_nodes_only: bool,
        progress: &mut Vec<ProgressEvent>,
    ) -> (r: Result<String, AppError>)
        ensures
            intermediate_result(self.document(), self.index(), filter@, leaf_nodes_only, r),
            intermediate_reports(
                self.document(),
                self.index(),
                filter@,
                leaf_nodes_only,
                progress_views(old(progress)@),
                progress_views(final(progress)@),
            ),
    {
        build_intermediate(&self.dom, &self.tree_flat, filter, leaf_nodes_only, progress)
    }

    /// Gathers the values of the shown entries whose address or name
    /// contains the filter. See [`search_result`].
    pub fn extract_search_results(&self, filter: &str) -> (r: Result<String, AppError>)
        ensures
            search_result(self.document(), self.index(), filter@, r),
    {
        search_results(&self.dom, &self.tree_flat, filter)
    }

    /// The candidate field names of the document: the kept candidates that
    /// it offers, each once, in the order of strings, and of these the first
    /// twenty at most. Fails where no document is loaded.
    pub fn detect_english_fields(&self, leaf_nodes_only: bool) -> (r: Result<Vec<String>, AppError>)
        ensures
            match self.document() {
                None => r is Err && r->Err_0@ == AppErrorView::State(not_loaded_text()),
                Some(j) => {
                    &&& r is Ok
                    &&& texts_of(r->Ok_0@) == first_fields(j, leaf_nodes_only)
                    &&& is_field_listing(fields_of(j, leaf_nodes_only), j, leaf_nodes_only)
                },
            },
    {
        match &self.dom {
            Some(dom) => Ok(detect_fields(dom, leaf_nodes_only)),
            None => Err(not_loaded()),
        }
    }

    /// Applies a batch of corrections to the document and builds the index
    /// anew. See [`apply_corrections`]. Where the batch cannot be applied,
    /// the session is left as it was.
    pub fn apply_corrections(&mut self, writeback_content: &str, intermediate_stage2: &str) -> (r:
        Result<WritebackReport, AppError>)
        ensures
            match writeback_outcome(old(self).document(), writeback_content@, intermediate_stage2@) {
                Ok(done) => {
                    &&& r is Ok
                    &&& final(self).document() == Some(done.0)
                    &&& final(self).index() == index_of(done.0)
                    &&& final(self).consistent()
                    &&& r->Ok_0.modified == done.1
                    &&& r->Ok_0.skipped == done.2
                    &&& final(self).source_path == old(self).source_path
                    &&& final(self).original_file_path == old(self).original_file_path
                },
                Err(e) => r is Err && r->Err_0@ == e && *final(self) == *old(self),
            },
    {
        match apply_corrections(&mut self.dom, writeback_content, intermediate_stage2) {
            Ok(report) => {
                match &self.dom {
                    Some(dom) => {
                        self.tree_flat = build_shadow_tree(dom);
                        proof {
                            lemma_flatten_as_built(
                                json_of(*dom),
                                root_address(),
                                root_address(),
                                0,
                            );
                        }
                    },
                    None => {},
                }
                Ok(report)
            },
            Err(e) => Err(e),
        }
    }
}

} // verus!

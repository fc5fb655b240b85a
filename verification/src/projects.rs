//! Project entries: the workspaces that the shell has created.

use vstd::prelude::*;
use crate::catalog::Timestamp;
use crate::record::{duplicate_all, duplicate_text, models, text_model, Record};

verus! {

/// One project of the editor.
#[derive(Clone, Debug, PartialEq, Eq)]
pub struct Project {
    pub id: String,
    pub name: String,
    pub path: String,
    pub created_at: Timestamp,
    pub last_modified: Timestamp,
    pub description: Option<String>,
    pub tags: Vec<String>,
}

/// The mathematical value of a [`Project`].
pub struct ProjectModel {
    pub id: Seq<char>,
    pub name: Seq<char>,
    pub path: Seq<char>,
    pub created_at: Timestamp,
    pub last_modified: Timestamp,
    pub description: Option<Seq<char>>,
    pub tags: Seq<Seq<char>>,
}

impl View for Project {
    type V = ProjectModel;

    open spec fn view(&self) -> ProjectModel {
        ProjectModel {
            id: self.id@,
            name: self.name@,
            path: self.path@,
            created_at: self.created_at,
            last_modified: self.last_modified,
            description: text_model(self.description),
            tags: models(self.tags@),
        }
    }
}

impl Record for Project {
    type Model = ProjectModel;

    open spec fn model(&self) -> ProjectModel {
        self@
    }

    open spec fn key_of(model: ProjectModel) -> Seq<char> {
        model.id
    }

    fn key(&self) -> (key: &String) {
        &self.id
    }

    fn duplicate(&self) -> (copy: Self) {
        Project {
            id: self.id.clone(),
            name: self.name.clone(),
            path: self.path.clone(),
            created_at: self.created_at,
            last_modified: self.last_modified,
            description: duplicate_text(&self.description),
            tags: duplicate_all(&self.tags),
        }
    }
}

} // verus!

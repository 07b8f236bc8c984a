//! The records that the index holds.

use vstd::prelude::*;

verus! {

/// What an invoice says of the bindle it describes.
#[derive(Debug)]
pub struct BindleSpec {
    /// The name that identifies the bindle.
    pub name: String,
    /// The bindle's version, as text.
    pub version: String,
    pub description: Option<String>,
    pub authors: Option<Vec<String>>,
}

/// The mathematical value of a [`BindleSpec`].
pub ghost struct BindleSpecView {
    pub name: Seq<char>,
    pub version: Seq<char>,
    pub description: Option<Seq<char>>,
    pub authors: Option<Seq<Seq<char>>>,
}

/// What identifies the content of one parcel.
#[derive(Debug)]
pub struct Label {
    pub sha256: String,
    pub media_type: String,
    pub name: String,
    pub size: Option<u64>,
}

/// The mathematical value of a [`Label`].
pub ghost struct LabelView {
    pub sha256: Seq<char>,
    pub media_type: Seq<char>,
    pub name: Seq<char>,
    pub size: Option<u64>,
}

/// One of the parts that a bindle is made of.
#[derive(Debug)]
pub struct Parcel {
    pub label: Label,
}

/// The mathematical value of a [`Parcel`].
pub ghost struct ParcelView {
    pub label: LabelView,
}

/// One record of the index.
///
/// The index reads the name and the version of the bindle and keeps the rest
/// as it was given.
#[derive(Debug)]
pub struct Invoice {
    /// The version of the invoice format.
    pub bindle_version: String,
    /// Whether the bindle was withdrawn; absent means that it was not.
    pub yanked: Option<bool>,
    pub bindle: BindleSpec,
    pub parcels: Option<Vec<Parcel>>,
}

/// The mathematical value of an [`Invoice`].
pub ghost struct InvoiceView {
    pub bindle_version: Seq<char>,
    pub yanked: Option<bool>,
    pub bindle: BindleSpecView,
    pub parcels: Option<Seq<ParcelView>>,
}

impl View for Label {
    type V = LabelView;

    open spec fn view(&self) -> LabelView {
        LabelView {
            sha256: self.sha256@,
            media_type: self.media_type@,
            name: self.name@,
            size: self.size,
        }
    }
}

impl DeepView for Label {
    type V = LabelView;

    open spec fn deep_view(&self) -> LabelView {
        self@
    }
}

impl View for Parcel {
    type V = ParcelView;

    open spec fn view(&self) -> ParcelView {
        ParcelView { label: self.label@ }
    }
}

impl DeepView for Parcel {
    type V = ParcelView;

    open spec fn deep_view(&self) -> ParcelView {
        self@
    }
}

impl View for BindleSpec {
    type V = BindleSpecView;

    open spec fn view(&self) -> BindleSpecView {
        BindleSpecView {
            name: self.name@,
            version: self.version@,
            description: self.description.deep_view(),
            authors: self.authors.deep_view(),
        }
    }
}

impl DeepView for BindleSpec {
    type V = BindleSpecView;

    open spec fn deep_view(&self) -> BindleSpecView {
        self@
    }
}

impl View for Invoice {
    type V = InvoiceView;

    open spec fn view(&self) -> InvoiceView {
        InvoiceView {
            bindle_version: self.bindle_version@,
            yanked: self.yanked,
            bindle: self.bindle@,
            parcels: self.parcels.deep_view(),
        }
    }
}

impl DeepView for Invoice {
    type V = InvoiceView;

    open spec fn deep_view(&self) -> InvoiceView {
        self@
    }
}

impl InvoiceView {
    /// The name under which the record is indexed.
    pub open spec fn name(self) -> Seq<char> {
        self.bindle.name
    }

    /// The version that a query's requirement is held against.
    pub open spec fn version(self) -> Seq<char> {
        self.bindle.version
    }
}

impl Clone for BindleSpec {
    fn clone(&self) -> (copy: Self)
        ensures
            copy@ == self@,
    {
        let description = self.description.clone();
        let authors = self.authors.clone();
        BindleSpec {
            name: self.name.clone(),
            version: self.version.clone(),
            description,
            authors,
        }
    }
}

impl Clone for Label {
    fn clone(&self) -> (copy: Self)
        ensures
            copy@ == self@,
    {
        Label {
            sha256: self.sha256.clone(),
            media_type: self.media_type.clone(),
            name: self.name.clone(),
            size: self.size,
        }
    }
}

impl Clone for Parcel {
    fn clone(&self) -> (copy: Self)
        ensures
            copy@ == self@,
    {
        Parcel { label: self.label.clone() }
    }
}

impl Clone for Invoice {
    fn clone(&self) -> (copy: Self)
        ensures
            copy@ == self@,
    {
        let parcels = self.parcels.clone();
        Invoice {
            bindle_version: self.bindle_version.clone(),
            yanked: self.yanked,
            bindle: self.bindle.clone(),
            parcels,
        }
    }
}

} // verus!

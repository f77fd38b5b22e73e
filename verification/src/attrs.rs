//! The rewriting of `#[nixcfg(...)]` attributes into schemars extension
//! arguments, on a model of the annotated item.
//!
//! The item is modelled as far as the rewriting reads it: the attribute lists
//! of the item, of its fields and of its enum variants. What the rewriting
//! only carries through is held as type parameters: `A` an attribute that is
//! not `#[nixcfg]`, `X` the expression of a `key = value` item, `S` a source
//! span, `E` the error of parsing a `#[nixcfg(...)]` argument list.

use vstd::prelude::*;

verus! {

/// An extension property that `#[nixcfg(...)]` sets on a schema.
#[derive(Debug, Clone, Copy, PartialEq, Eq, Structural)]
pub enum Extension {
    /// `secret`: the option is a secret (its nix type becomes a path)
    Secret,
    /// `port`: the integer option becomes a port
    Port,
    /// `path`: the string option becomes a path
    Path,
    /// `skip`: the field is left out of the nix options
    Skip,
    /// `description = ...`: the option's description
    Description,
    /// `example = ...`: the option's example
    Example,
}

/// The schema key of an extension.
pub open spec fn extension_key(e: Extension) -> Seq<char> {
    match e {
        Extension::Secret => "x-nixcfg-secret"@,
        Extension::Port => "x-nixcfg-port"@,
        Extension::Path => "x-nixcfg-path"@,
        Extension::Skip => "x-nixcfg-skip"@,
        Extension::Description => "x-nixcfg-description"@,
        Extension::Example => "x-nixcfg-example"@,
    }
}

impl Extension {
    /// The schema key of this extension.
    pub fn key(&self) -> (k: &'static str)
        ensures
            k@ == extension_key(*self),
    {
        match self {
            Extension::Secret => "x-nixcfg-secret",
            Extension::Port => "x-nixcfg-port",
            Extension::Path => "x-nixcfg-path",
            Extension::Skip => "x-nixcfg-skip",
            Extension::Description => "x-nixcfg-description",
            Extension::Example => "x-nixcfg-example",
        }
    }
}

/// The extension that a flag (`#[nixcfg(secret)]`) names.
pub open spec fn flag_extension(ident: Seq<char>) -> Option<Extension> {
    if ident == "secret"@ {
        Some(Extension::Secret)
    } else if ident == "port"@ {
        Some(Extension::Port)
    } else if ident == "path"@ {
        Some(Extension::Path)
    } else if ident == "skip"@ {
        Some(Extension::Skip)
    } else {
        None
    }
}

/// The extension that a key of a `key = value` item names.
pub open spec fn key_value_extension(ident: Seq<char>) -> Option<Extension> {
    if ident == "description"@ {
        Some(Extension::Description)
    } else if ident == "example"@ {
        Some(Extension::Example)
    } else {
        None
    }
}

/// One item of the list in `#[nixcfg(...)]`.
pub enum NixcfgMeta<X, S> {
    /// a path, such as `secret`; `ident` is the identifier where the path is one
    Flag { ident: Option<String>, span: S },
    /// `key = value`; `ident` is the key where it is a single identifier
    KeyValue { ident: Option<String>, value: X, span: S },
    /// a nested list, such as `secret(...)`
    List { span: S },
}

/// The value given to an extension.
pub enum ExtendValue<X> {
    /// the literal `true` of a flag
    True,
    /// the expression of a `key = value` item
    Expr(X),
}

/// One argument of `#[schemars(extend(...))]`: an extension key and its value.
pub struct ExtendArg<X> {
    pub extension: Extension,
    pub value: ExtendValue<X>,
}

/// An attribute of an item, a field or a variant.
pub enum FieldAttr<A, X, S, E> {
    /// an attribute that is not `#[nixcfg(...)]`, kept as it is
    Other(A),
    /// `#[nixcfg(...)]`, with its argument list as parsed
    Nixcfg(Result<Vec<NixcfgMeta<X, S>>, E>),
    /// `#[schemars(extend(...))]`, the rewritten form
    Extend(Vec<ExtendArg<X>>),
}

/// Why an item cannot be rewritten.
pub enum RewriteError<S, E> {
    /// a flag or key that is a path of more than one segment
    NotIdent(S),
    /// a flag that is none of `secret`, `port`, `path`, `skip`
    UnknownFlag(S, String),
    /// a key that is neither `description` nor `example`
    UnknownKey(S, String),
    /// a nested list inside `#[nixcfg(...)]`
    NestedList(S),
    /// an argument list that does not parse
    Parse(E),
    /// `#[nixcfg]` on a union
    Union(S),
}

/// The model of a [`FieldAttr`].
pub enum AttrModel<A, X, S, E> {
    Other(A),
    Nixcfg(Result<Seq<NixcfgMeta<X, S>>, E>),
    Extend(Seq<ExtendArg<X>>),
}

impl<A, X, S, E> View for FieldAttr<A, X, S, E> {
    type V = AttrModel<A, X, S, E>;

    open spec fn view(&self) -> AttrModel<A, X, S, E> {
        match self {
            FieldAttr::Other(a) => AttrModel::Other(*a),
            FieldAttr::Nixcfg(Ok(metas)) => AttrModel::Nixcfg(Ok(metas@)),
            FieldAttr::Nixcfg(Err(e)) => AttrModel::Nixcfg(Err(*e)),
            FieldAttr::Extend(args) => AttrModel::Extend(args@),
        }
    }
}

/// The model of a list of attributes.
pub open spec fn attrs_view<A, X, S, E>(attrs: Seq<FieldAttr<A, X, S, E>>) -> Seq<
    AttrModel<A, X, S, E>,
> {
    attrs.map_values(|a: FieldAttr<A, X, S, E>| a@)
}

/// The extension argument that one item of `#[nixcfg(...)]` stands for.
pub open spec fn meta_arg<X, S, E>(m: NixcfgMeta<X, S>) -> Result<ExtendArg<X>, RewriteError<S, E>> {
    match m {
        NixcfgMeta::Flag { ident, span } => match ident {
            None => Err(RewriteError::NotIdent(span)),
            Some(i) => match flag_extension(i@) {
                Some(e) => Ok(ExtendArg { extension: e, value: ExtendValue::True }),
                None => Err(RewriteError::UnknownFlag(span, i)),
            },
        },
        NixcfgMeta::KeyValue { ident, value, span } => match ident {
            None => Err(RewriteError::NotIdent(span)),
            Some(i) => match key_value_extension(i@) {
                Some(e) => Ok(ExtendArg { extension: e, value: ExtendValue::Expr(value) }),
                None => Err(RewriteError::UnknownKey(span, i)),
            },
        },
        NixcfgMeta::List { span } => Err(RewriteError::NestedList(span)),
    }
}

/// The extension arguments of a `#[nixcfg(...)]` list, in order; the first
/// item that stands for none is the error.
pub open spec fn meta_args<X, S, E>(metas: Seq<NixcfgMeta<X, S>>) -> Result<
    Seq<ExtendArg<X>>,
    RewriteError<S, E>,
>
    decreases metas.len(),
{
    if metas.len() == 0 {
        Ok(Seq::empty())
    } else {
        match meta_args(metas.drop_last()) {
            Err(e) => Err(e),
            Ok(args) => match meta_arg(metas.last()) {
                Ok(a) => Ok(args.push(a)),
                Err(e) => Err(e),
            },
        }
    }
}

/// A list of attributes with each `#[nixcfg(...)]` replaced by the
/// `#[schemars(extend(...))]` of its arguments (none where the list is
/// empty); the other attributes are kept in their order. The first
/// attribute that cannot be rewritten gives the error.
pub open spec fn rewrite_attrs_model<A, X, S, E>(attrs: Seq<AttrModel<A, X, S, E>>) -> Result<
    Seq<AttrModel<A, X, S, E>>,
    RewriteError<S, E>,
>
    decreases attrs.len(),
{
    if attrs.len() == 0 {
        Ok(Seq::empty())
    } else {
        match rewrite_attrs_model(attrs.drop_last()) {
            Err(e) => Err(e),
            Ok(out) => match attrs.last() {
                AttrModel::Nixcfg(Err(e)) => Err(RewriteError::Parse(e)),
                AttrModel::Nixcfg(Ok(metas)) => match meta_args::<X, S, E>(metas) {
                    Err(e) => Err(e),
                    Ok(args) => if args.len() == 0 {
                        Ok(out)
                    } else {
                        Ok(out.push(AttrModel::Extend(args)))
                    },
                },
                other => Ok(out.push(other)),
            },
        }
    }
}

/// The extension that the flag `ident` names.
fn flag_of(ident: &String) -> (r: Option<Extension>)
    ensures
        r == flag_extension(ident@),
{
    if *ident == String::from_str("secret") {
        Some(Extension::Secret)
    } else if *ident == String::from_str("port") {
        Some(Extension::Port)
    } else if *ident == String::from_str("path") {
        Some(Extension::Path)
    } else if *ident == String::from_str("skip") {
        Some(Extension::Skip)
    } else {
        None
    }
}

/// The extension that the key `ident` of a `key = value` item names.
fn key_of(ident: &String) -> (r: Option<Extension>)
    ensures
        r == key_value_extension(ident@),
{
    if *ident == String::from_str("description") {
        Some(Extension::Description)
    } else if *ident == String::from_str("example") {
        Some(Extension::Example)
    } else {
        None
    }
}

/// The extension argument of one item of `#[nixcfg(...)]` (see [`meta_arg`]).
pub fn extend_arg<X, S, E>(m: NixcfgMeta<X, S>) -> (r: Result<ExtendArg<X>, RewriteError<S, E>>)
    ensures
        r == meta_arg::<X, S, E>(m),
{
    match m {
        NixcfgMeta::Flag { ident, span } => match ident {
            None => Err(RewriteError::NotIdent(span)),
            Some(i) => match flag_of(&i) {
                Some(e) => Ok(ExtendArg { extension: e, value: ExtendValue::True }),
                None => Err(RewriteError::UnknownFlag(span, i)),
            },
        },
        NixcfgMeta::KeyValue { ident, value, span } => match ident {
            None => Err(RewriteError::NotIdent(span)),
            Some(i) => match key_of(&i) {
                Some(e) => Ok(ExtendArg { extension: e, value: ExtendValue::Expr(value) }),
                None => Err(RewriteError::UnknownKey(span, i)),
            },
        },
        NixcfgMeta::List { span } => Err(RewriteError::NestedList(span)),
    }
}

/// The extension arguments of a `#[nixcfg(...)]` list (see [`meta_args`]).
pub fn extend_args<X, S, E>(metas: Vec<NixcfgMeta<X, S>>) -> (r: Result<
    Vec<ExtendArg<X>>,
    RewriteError<S, E>,
>)
    ensures
        match r {
            Ok(args) => meta_args::<X, S, E>(metas@) == Ok::<_, RewriteError<S, E>>(args@),
            Err(e) => meta_args::<X, S, E>(metas@) == Err::<Seq<ExtendArg<X>>, _>(e),
        },
{
    let ghost all = metas@;
    let mut rest = metas;
    let mut out: Vec<ExtendArg<X>> = Vec::new();
    proof {
        assert(all.take(0) =~= Seq::<NixcfgMeta<X, S>>::empty());
        assert(all.skip(0) =~= all);
    }
    while rest.len() > 0
        invariant
            all == metas@,
            out@.len() <= all.len(),
            rest@ == all.skip(out@.len() as int),
            meta_args::<X, S, E>(all.take(out@.len() as int)) == Ok::<_, RewriteError<S, E>>(
                out@,
            ),
        decreases rest.len(),
    {
        let ghost k = out@.len() as int;
        let m = rest.remove(0);
        proof {
            assert(all.take(k + 1).drop_last() =~= all.take(k));
            assert(all.take(k + 1).last() == all[k]);
            assert(rest@ =~= all.skip(k + 1));
        }
        match extend_arg::<X, S, E>(m) {
            Ok(a) => {
                out.push(a);
            },
            Err(e) => {
                proof {
                    assert(meta_args::<X, S, E>(all.take(k + 1)) == Err::<
                        Seq<ExtendArg<X>>,
                        RewriteError<S, E>,
                    >(e));
                    lemma_meta_args_error_stays::<X, S, E>(all, k + 1);
                }
                return Err(e);
            },
        }
    }
    proof {
        assert(all.take(all.len() as int) =~= all);
    }
    Ok(out)
}

/// An error in a prefix of the list is the error of the whole list.
proof fn lemma_meta_args_error_stays<X, S, E>(metas: Seq<NixcfgMeta<X, S>>, n: int)
    requires
        0 <= n <= metas.len(),
        meta_args::<X, S, E>(metas.take(n)) is Err,
    ensures
        meta_args::<X, S, E>(metas) == meta_args::<X, S, E>(metas.take(n)),
    decreases metas.len() - n,
{
    if n < metas.len() {
        assert(metas.take(n + 1).drop_last() =~= metas.take(n));
        lemma_meta_args_error_stays::<X, S, E>(metas, n + 1);
    } else {
        assert(metas.take(n) =~= metas);
    }
}

/// An error in a prefix of an attribute list is the error of the whole list.
proof fn lemma_rewrite_attrs_error_stays<A, X, S, E>(attrs: Seq<AttrModel<A, X, S, E>>, n: int)
    requires
        0 <= n <= attrs.len(),
        rewrite_attrs_model(attrs.take(n)) is Err,
    ensures
        rewrite_attrs_model(attrs) == rewrite_attrs_model(attrs.take(n)),
    decreases attrs.len() - n,
{
    if n < attrs.len() {
        assert(attrs.take(n + 1).drop_last() =~= attrs.take(n));
        lemma_rewrite_attrs_error_stays(attrs, n + 1);
    } else {
        assert(attrs.take(n) =~= attrs);
    }
}

/// Whether `r` is the executable form of the outcome `expected` of rewriting
/// an attribute list.
pub open spec fn attrs_outcome<A, X, S, E>(
    r: Result<Vec<FieldAttr<A, X, S, E>>, RewriteError<S, E>>,
    expected: Result<Seq<AttrModel<A, X, S, E>>, RewriteError<S, E>>,
) -> bool {
    match r {
        Ok(v) => expected == Ok::<_, RewriteError<S, E>>(attrs_view(v@)),
        Err(e) => expected == Err::<Seq<AttrModel<A, X, S, E>>, _>(e),
    }
}

/// Rewrites the `#[nixcfg(...)]` attributes of a list (see [`rewrite_attrs_model`]).
pub fn rewrite_attrs<A, X, S, E>(attrs: Vec<FieldAttr<A, X, S, E>>) -> (r: Result<
    Vec<FieldAttr<A, X, S, E>>,
    RewriteError<S, E>,
>)
    ensures
        attrs_outcome(r, rewrite_attrs_model(attrs_view(attrs@))),
{
    let ghost all = attrs_view(attrs@);
    let mut rest = attrs;
    let mut out: Vec<FieldAttr<A, X, S, E>> = Vec::new();
    let ghost mut k: int = 0;
    proof {
        assert(all.take(0) =~= Seq::<AttrModel<A, X, S, E>>::empty());
        assert(attrs_view(out@) =~= Seq::<AttrModel<A, X, S, E>>::empty());
        assert(attrs_view(rest@) =~= all.skip(0));
    }
    while rest.len() > 0
        invariant
            all == attrs_view(attrs@),
            0 <= k <= all.len(),
            attrs_view(rest@) == all.skip(k),
            rewrite_attrs_model(all.take(k)) == Ok::<_, RewriteError<S, E>>(attrs_view(out@)),
        decreases rest.len(),
    {
        let ghost before = rest@;
        let ghost prev_out = out@;
        proof {
            assert(attrs_view(before).len() == before.len());
            assert(k < all.len());
        }
        let a = rest.remove(0);
        proof {
            assert(all.take(k + 1).drop_last() =~= all.take(k));
            assert(all.skip(k)[0] == all[k]);
            assert(a@ == attrs_view(before)[0]);
            assert forall|i: int| 0 <= i < rest@.len() implies attrs_view(rest@)[i] == all.skip(
                k + 1,
            )[i] by {
                assert(rest@[i] == before[i + 1]);
                assert(attrs_view(before)[i + 1] == all.skip(k)[i + 1]);
            }
            assert(attrs_view(rest@) =~= all.skip(k + 1));
        }
        match a {
            FieldAttr::Nixcfg(Err(e)) => {
                proof {
                    lemma_rewrite_attrs_error_stays(all, k + 1);
                }
                return Err(RewriteError::Parse(e));
            },
            FieldAttr::Nixcfg(Ok(metas)) => {
                match extend_args::<X, S, E>(metas) {
                    Err(e) => {
                        proof {
                            lemma_rewrite_attrs_error_stays(all, k + 1);
                        }
                        return Err(e);
                    },
                    Ok(args) => {
                        if args.len() > 0 {
                            out.push(FieldAttr::Extend(args));
                            proof {
                                assert(attrs_view(out@) =~= attrs_view(prev_out).push(
                                    AttrModel::Extend(args@),
                                ));
                            }
                        }
                    },
                }
            },
            other => {
                let ghost m = other@;
                out.push(other);
                proof {
                    assert(attrs_view(out@) =~= attrs_view(prev_out).push(m));
                }
            },
        }
        proof {
            k = k + 1;
        }
    }
    proof {
        assert(all.take(k) =~= all);
    }
    Ok(out)
}

/// The fields of a struct or of an enum variant, each given by its attributes.
pub enum Fields<A, X, S, E> {
    Named(Vec<Vec<FieldAttr<A, X, S, E>>>),
    Unnamed(Vec<Vec<FieldAttr<A, X, S, E>>>),
    Unit,
}

/// An enum variant: its attributes and its fields.
pub struct Variant<A, X, S, E> {
    pub attrs: Vec<FieldAttr<A, X, S, E>>,
    pub fields: Fields<A, X, S, E>,
}

/// The body of an annotated item.
pub enum ItemData<A, X, S, E> {
    Struct(Fields<A, X, S, E>),
    Enum(Vec<Variant<A, X, S, E>>),
    Union,
}

/// An item annotated with `#[nixcfg]`: its own attributes, its body, and
/// the span that an error about the whole item points at.
pub struct DeriveItem<A, X, S, E> {
    pub attrs: Vec<FieldAttr<A, X, S, E>>,
    pub data: ItemData<A, X, S, E>,
    pub span: S,
}

/// The model of [`Fields`].
pub enum FieldsModel<A, X, S, E> {
    Named(Seq<Seq<AttrModel<A, X, S, E>>>),
    Unnamed(Seq<Seq<AttrModel<A, X, S, E>>>),
    Unit,
}

/// The model of a [`Variant`].
pub struct VariantModel<A, X, S, E> {
    pub attrs: Seq<AttrModel<A, X, S, E>>,
    pub fields: FieldsModel<A, X, S, E>,
}

/// The model of [`ItemData`].
pub enum DataModel<A, X, S, E> {
    Struct(FieldsModel<A, X, S, E>),
    Enum(Seq<VariantModel<A, X, S, E>>),
    Union,
}

/// The model of a [`DeriveItem`].
pub struct ItemModel<A, X, S, E> {
    pub attrs: Seq<AttrModel<A, X, S, E>>,
    pub data: DataModel<A, X, S, E>,
    pub span: S,
}

/// The model of a sequence of attribute lists.
pub open spec fn lists_view<A, X, S, E>(lists: Seq<Vec<FieldAttr<A, X, S, E>>>) -> Seq<
    Seq<AttrModel<A, X, S, E>>,
> {
    lists.map_values(|l: Vec<FieldAttr<A, X, S, E>>| attrs_view(l@))
}

impl<A, X, S, E> View for Fields<A, X, S, E> {
    type V = FieldsModel<A, X, S, E>;

    open spec fn view(&self) -> FieldsModel<A, X, S, E> {
        match self {
            Fields::Named(l) => FieldsModel::Named(lists_view(l@)),
            Fields::Unnamed(l) => FieldsModel::Unnamed(lists_view(l@)),
            Fields::Unit => FieldsModel::Unit,
        }
    }
}

impl<A, X, S, E> View for Variant<A, X, S, E> {
    type V = VariantModel<A, X, S, E>;

    open spec fn view(&self) -> VariantModel<A, X, S, E> {
        VariantModel { attrs: attrs_view(self.attrs@), fields: self.fields@ }
    }
}

/// The model of a sequence of variants.
pub open spec fn variants_view<A, X, S, E>(vs: Seq<Variant<A, X, S, E>>) -> Seq<
    VariantModel<A, X, S, E>,
> {
    vs.map_values(|v: Variant<A, X, S, E>| v@)
}

impl<A, X, S, E> View for ItemData<A, X, S, E> {
    type V = DataModel<A, X, S, E>;

    open spec fn view(&self) -> DataModel<A, X, S, E> {
        match self {
            ItemData::Struct(f) => DataModel::Struct(f@),
            ItemData::Enum(vs) => DataModel::Enum(variants_view(vs@)),
            ItemData::Union => DataModel::Union,
        }
    }
}

impl<A, X, S, E> View for DeriveItem<A, X, S, E> {
    type V = ItemModel<A, X, S, E>;

    open spec fn view(&self) -> ItemModel<A, X, S, E> {
        ItemModel { attrs: attrs_view(self.attrs@), data: self.data@, span: self.span }
    }
}

/// Each attribute list rewritten in turn; the first error is the error.
pub open spec fn rewrite_lists_model<A, X, S, E>(lists: Seq<Seq<AttrModel<A, X, S, E>>>) -> Result<
    Seq<Seq<AttrModel<A, X, S, E>>>,
    RewriteError<S, E>,
>
    decreases lists.len(),
{
    if lists.len() == 0 {
        Ok(Seq::empty())
    } else {
        match rewrite_lists_model(lists.drop_last()) {
            Err(e) => Err(e),
            Ok(out) => match rewrite_attrs_model(lists.last()) {
                Err(e) => Err(e),
                Ok(a) => Ok(out.push(a)),
            },
        }
    }
}

/// The fields with their attributes rewritten.
pub open spec fn rewrite_fields_model<A, X, S, E>(f: FieldsModel<A, X, S, E>) -> Result<
    FieldsModel<A, X, S, E>,
    RewriteError<S, E>,
> {
    match f {
        FieldsModel::Named(l) => match rewrite_lists_model(l) {
            Ok(o) => Ok(FieldsModel::Named(o)),
            Err(e) => Err(e),
        },
        FieldsModel::Unnamed(l) => match rewrite_lists_model(l) {
            Ok(o) => Ok(FieldsModel::Unnamed(o)),
            Err(e) => Err(e),
        },
        FieldsModel::Unit => Ok(FieldsModel::Unit),
    }
}

/// A variant with its own attributes, then its fields' attributes, rewritten.
pub open spec fn rewrite_variant_model<A, X, S, E>(v: VariantModel<A, X, S, E>) -> Result<
    VariantModel<A, X, S, E>,
    RewriteError<S, E>,
> {
    match rewrite_attrs_model(v.attrs) {
        Err(e) => Err(e),
        Ok(a) => match rewrite_fields_model(v.fields) {
            Err(e) => Err(e),
            Ok(f) => Ok(VariantModel { attrs: a, fields: f }),
        },
    }
}

/// Each variant rewritten in turn; the first error is the error.
pub open spec fn rewrite_variants_model<A, X, S, E>(vs: Seq<VariantModel<A, X, S, E>>) -> Result<
    Seq<VariantModel<A, X, S, E>>,
    RewriteError<S, E>,
>
    decreases vs.len(),
{
    if vs.len() == 0 {
        Ok(Seq::empty())
    } else {
        match rewrite_variants_model(vs.drop_last()) {
            Err(e) => Err(e),
            Ok(out) => match rewrite_variant_model(vs.last()) {
                Err(e) => Err(e),
                Ok(v) => Ok(out.push(v)),
            },
        }
    }
}

/// An annotated item with every `#[nixcfg(...)]` rewritten: first the
/// attributes of the fields (of each variant, its own attributes before its
/// fields'), then the item's own attributes. A union is refused.
pub open spec fn rewrite_model<A, X, S, E>(item: ItemModel<A, X, S, E>) -> Result<
    ItemModel<A, X, S, E>,
    RewriteError<S, E>,
> {
    let data = match item.data {
        DataModel::Struct(f) => match rewrite_fields_model(f) {
            Ok(o) => Ok(DataModel::Struct(o)),
            Err(e) => Err(e),
        },
        DataModel::Enum(vs) => match rewrite_variants_model(vs) {
            Ok(o) => Ok(DataModel::Enum(o)),
            Err(e) => Err(e),
        },
        DataModel::Union => Err(RewriteError::Union(item.span)),
    };
    match data {
        Err(e) => Err(e),
        Ok(d) => match rewrite_attrs_model(item.attrs) {
            Err(e) => Err(e),
            Ok(a) => Ok(ItemModel { attrs: a, data: d, span: item.span }),
        },
    }
}

/// An error in a prefix of a sequence of attribute lists is the error of the whole.
proof fn lemma_rewrite_lists_error_stays<A, X, S, E>(lists: Seq<Seq<AttrModel<A, X, S, E>>>, n: int)
    requires
        0 <= n <= lists.len(),
        rewrite_lists_model(lists.take(n)) is Err,
    ensures
        rewrite_lists_model(lists) == rewrite_lists_model(lists.take(n)),
    decreases lists.len() - n,
{
    if n < lists.len() {
        assert(lists.take(n + 1).drop_last() =~= lists.take(n));
        lemma_rewrite_lists_error_stays(lists, n + 1);
    } else {
        assert(lists.take(n) =~= lists);
    }
}

/// An error in a prefix of a sequence of variants is the error of the whole.
proof fn lemma_rewrite_variants_error_stays<A, X, S, E>(vs: Seq<VariantModel<A, X, S, E>>, n: int)
    requires
        0 <= n <= vs.len(),
        rewrite_variants_model(vs.take(n)) is Err,
    ensures
        rewrite_variants_model(vs) == rewrite_variants_model(vs.take(n)),
    decreases vs.len() - n,
{
    if n < vs.len() {
        assert(vs.take(n + 1).drop_last() =~= vs.take(n));
        lemma_rewrite_variants_error_stays(vs, n + 1);
    } else {
        assert(vs.take(n) =~= vs);
    }
}

/// Rewrites a sequence of attribute lists (see [`rewrite_lists_model`]).
fn rewrite_lists<A, X, S, E>(lists: Vec<Vec<FieldAttr<A, X, S, E>>>) -> (r: Result<
    Vec<Vec<FieldAttr<A, X, S, E>>>,
    RewriteError<S, E>,
>)
    ensures
        match r {
            Ok(v) => rewrite_lists_model(lists_view(lists@)) == Ok::<_, RewriteError<S, E>>(
                lists_view(v@),
            ),
            Err(e) => rewrite_lists_model(lists_view(lists@)) == Err::<
                Seq<Seq<AttrModel<A, X, S, E>>>,
                _,
            >(e),
        },
{
    let ghost all = lists_view(lists@);
    let mut rest = lists;
    let mut out: Vec<Vec<FieldAttr<A, X, S, E>>> = Vec::new();
    let ghost mut k: int = 0;
    proof {
        assert(all.take(0) =~= Seq::<Seq<AttrModel<A, X, S, E>>>::empty());
        assert(lists_view(out@) =~= Seq::<Seq<AttrModel<A, X, S, E>>>::empty());
        assert(lists_view(rest@) =~= all.skip(0));
    }
    while rest.len() > 0
        invariant
            all == lists_view(lists@),
            0 <= k <= all.len(),
            lists_view(rest@) == all.skip(k),
            rewrite_lists_model(all.take(k)) == Ok::<_, RewriteError<S, E>>(lists_view(out@)),
        decreases rest.len(),
    {
        let ghost before = rest@;
        let ghost prev_out = out@;
        proof {
            assert(lists_view(before).len() == before.len());
        }
        let l = rest.remove(0);
        proof {
            assert(all.take(k + 1).drop_last() =~= all.take(k));
            assert(all.skip(k)[0] == all[k]);
            assert(attrs_view(l@) == lists_view(before)[0]);
            assert forall|i: int| 0 <= i < rest@.len() implies lists_view(rest@)[i] == all.skip(
                k + 1,
            )[i] by {
                assert(rest@[i] == before[i + 1]);
                assert(lists_view(before)[i + 1] == all.skip(k)[i + 1]);
            }
            assert(lists_view(rest@) =~= all.skip(k + 1));
        }
        match rewrite_attrs(l) {
            Err(e) => {
                proof {
                    lemma_rewrite_lists_error_stays(all, k + 1);
                }
                return Err(e);
            },
            Ok(a) => {
                let ghost am = attrs_view(a@);
                out.push(a);
                proof {
                    assert(lists_view(out@) =~= lists_view(prev_out).push(am));
                }
            },
        }
        proof {
            k = k + 1;
        }
    }
    proof {
        assert(all.take(k) =~= all);
    }
    Ok(out)
}

/// Rewrites the attributes of fields (see [`rewrite_fields_model`]).
fn rewrite_fields<A, X, S, E>(f: Fields<A, X, S, E>) -> (r: Result<
    Fields<A, X, S, E>,
    RewriteError<S, E>,
>)
    ensures
        match r {
            Ok(o) => rewrite_fields_model(f@) == Ok::<_, RewriteError<S, E>>(o@),
            Err(e) => rewrite_fields_model(f@) == Err::<FieldsModel<A, X, S, E>, _>(e),
        },
{
    match f {
        Fields::Named(l) => match rewrite_lists(l) {
            Ok(o) => Ok(Fields::Named(o)),
            Err(e) => Err(e),
        },
        Fields::Unnamed(l) => match rewrite_lists(l) {
            Ok(o) => Ok(Fields::Unnamed(o)),
            Err(e) => Err(e),
        },
        Fields::Unit => Ok(Fields::Unit),
    }
}

/// Rewrites a variant (see [`rewrite_variant_model`]).
fn rewrite_variant<A, X, S, E>(v: Variant<A, X, S, E>) -> (r: Result<
    Variant<A, X, S, E>,
    RewriteError<S, E>,
>)
    ensures
        match r {
            Ok(o) => rewrite_variant_model(v@) == Ok::<_, RewriteError<S, E>>(o@),
            Err(e) => rewrite_variant_model(v@) == Err::<VariantModel<A, X, S, E>, _>(e),
        },
{
    let Variant { attrs, fields } = v;
    match rewrite_attrs(attrs) {
        Err(e) => Err(e),
        Ok(a) => match rewrite_fields(fields) {
            Err(e) => Err(e),
            Ok(f) => Ok(Variant { attrs: a, fields: f }),
        },
    }
}

/// Rewrites a sequence of variants (see [`rewrite_variants_model`]).
fn rewrite_variants<A, X, S, E>(vs: Vec<Variant<A, X, S, E>>) -> (r: Result<
    Vec<Variant<A, X, S, E>>,
    RewriteError<S, E>,
>)
    ensures
        match r {
            Ok(o) => rewrite_variants_model(variants_view(vs@)) == Ok::<_, RewriteError<S, E>>(
                variants_view(o@),
            ),
            Err(e) => rewrite_variants_model(variants_view(vs@)) == Err::<
                Seq<VariantModel<A, X, S, E>>,
                _,
            >(e),
        },
{
    let ghost all = variants_view(vs@);
    let mut rest = vs;
    let mut out: Vec<Variant<A, X, S, E>> = Vec::new();
    let ghost mut k: int = 0;
    proof {
        assert(all.take(0) =~= Seq::<VariantModel<A, X, S, E>>::empty());
        assert(variants_view(out@) =~= Seq::<VariantModel<A, X, S, E>>::empty());
        assert(variants_view(rest@) =~= all.skip(0));
    }
    while rest.len() > 0
        invariant
            all == variants_view(vs@),
            0 <= k <= all.len(),
            variants_view(rest@) == all.skip(k),
            rewrite_variants_model(all.take(k)) == Ok::<_, RewriteError<S, E>>(
                variants_view(out@),
            ),
        decreases rest.len(),
    {
        let ghost before = rest@;
        let ghost prev_out = out@;
        proof {
            assert(variants_view(before).len() == before.len());
        }
        let v = rest.remove(0);
        proof {
            assert(all.take(k + 1).drop_last() =~= all.take(k));
            assert(all.skip(k)[0] == all[k]);
            assert(v@ == variants_view(before)[0]);
            assert forall|i: int| 0 <= i < rest@.len() implies variants_view(rest@)[i] == all.skip(
                k + 1,
            )[i] by {
                assert(rest@[i] == before[i + 1]);
                assert(variants_view(before)[i + 1] == all.skip(k)[i + 1]);
            }
            assert(variants_view(rest@) =~= all.skip(k + 1));
        }
        match rewrite_variant(v) {
            Err(e) => {
                proof {
                    lemma_rewrite_variants_error_stays(all, k + 1);
                }
                return Err(e);
            },
            Ok(o) => {
                let ghost om = o@;
                out.push(o);
                proof {
                    assert(variants_view(out@) =~= variants_view(prev_out).push(om));
                }
            },
        }
        proof {
            k = k + 1;
        }
    }
    proof {
        assert(all.take(k) =~= all);
    }
    Ok(out)
}

/// Rewrites every `#[nixcfg(...)]` attribute of an annotated item into
/// `#[schemars(extend(...))]` (see [`rewrite_model`]).
pub fn rewrite<A, X, S, E>(item: DeriveItem<A, X, S, E>) -> (r: Result<
    DeriveItem<A, X, S, E>,
    RewriteError<S, E>,
>)
    ensures
        match r {
            Ok(o) => rewrite_model(item@) == Ok::<_, RewriteError<S, E>>(o@),
            Err(e) => rewrite_model(item@) == Err::<ItemModel<A, X, S, E>, _>(e),
        },
{
    let DeriveItem { attrs, data, span } = item;
    let data = match data {
        ItemData::Struct(f) => match rewrite_fields(f) {
            Ok(o) => ItemData::Struct(o),
            Err(e) => {
                return Err(e);
            },
        },
        ItemData::Enum(vs) => match rewrite_variants(vs) {
            Ok(o) => ItemData::Enum(o),
            Err(e) => {
                return Err(e);
            },
        },
        ItemData::Union => {
            return Err(RewriteError::Union(span));
        },
    };
    match rewrite_attrs(attrs) {
        Err(e) => Err(e),
        Ok(a) => Ok(DeriveItem { attrs: a, data, span }),
    }
}

/// The attributes of a list that are neither `#[nixcfg]` nor rewritten ones, in order.
pub open spec fn other_attrs<A, X, S, E>(attrs: Seq<AttrModel<A, X, S, E>>) -> Seq<A>
    decreases attrs.len(),
{
    if attrs.len() == 0 {
        Seq::empty()
    } else {
        match attrs.last() {
            AttrModel::Other(a) => other_attrs(attrs.drop_last()).push(a),
            _ => other_attrs(attrs.drop_last()),
        }
    }
}

/// Each item of a `#[nixcfg(...)]` list that is rewritten gives exactly one
/// extension argument, in the order of the items.
pub proof fn law_one_argument_per_item<X, S, E>(metas: Seq<NixcfgMeta<X, S>>)
    ensures
        meta_args::<X, S, E>(metas) is Ok ==> {
            let args = meta_args::<X, S, E>(metas)->Ok_0;
            &&& args.len() == metas.len()
            &&& forall|i: int|
                0 <= i < metas.len() ==> meta_arg::<X, S, E>(#[trigger] metas[i]) == Ok::<
                    _,
                    RewriteError<S, E>,
                >(args[i])
        },
    decreases metas.len(),
{
    if metas.len() > 0 {
        let init = metas.drop_last();
        law_one_argument_per_item::<X, S, E>(init);
        if meta_args::<X, S, E>(metas) is Ok {
            assert forall|i: int| 0 <= i < init.len() implies metas[i] == init[i] by {}
        }
    }
}

/// Rewriting keeps every attribute that is not `#[nixcfg]`, in its order.
pub proof fn law_rewrite_keeps_other_attrs<A, X, S, E>(attrs: Seq<AttrModel<A, X, S, E>>)
    ensures
        rewrite_attrs_model(attrs) is Ok ==> other_attrs(rewrite_attrs_model(attrs)->Ok_0)
            == other_attrs(attrs),
    decreases attrs.len(),
{
    if attrs.len() > 0 {
        law_rewrite_keeps_other_attrs(attrs.drop_last());
        if rewrite_attrs_model(attrs) is Ok {
            let out = rewrite_attrs_model(attrs.drop_last())->Ok_0;
            match attrs.last() {
                AttrModel::Nixcfg(Ok(metas)) => {
                    let args = meta_args::<X, S, E>(metas)->Ok_0;
                    if args.len() != 0 {
                        assert(out.push(AttrModel::Extend(args)).drop_last() =~= out);
                    }
                },
                other => {
                    assert(out.push(other).drop_last() =~= out);
                },
            }
        }
    }
}

/// A rewritten list holds no `#[nixcfg]` attribute.
pub proof fn law_rewrite_leaves_no_nixcfg<A, X, S, E>(attrs: Seq<AttrModel<A, X, S, E>>)
    ensures
        rewrite_attrs_model(attrs) is Ok ==> forall|i: int|
            0 <= i < rewrite_attrs_model(attrs)->Ok_0.len() ==> !(
            #[trigger] rewrite_attrs_model(attrs)->Ok_0[i] is Nixcfg),
    decreases attrs.len(),
{
    if attrs.len() > 0 {
        law_rewrite_leaves_no_nixcfg(attrs.drop_last());
    }
}

/// A list without `#[nixcfg]` attributes is rewritten to itself.
pub proof fn lemma_rewrite_without_nixcfg<A, X, S, E>(attrs: Seq<AttrModel<A, X, S, E>>)
    requires
        forall|i: int| 0 <= i < attrs.len() ==> !(#[trigger] attrs[i] is Nixcfg),
    ensures
        rewrite_attrs_model(attrs) == Ok::<_, RewriteError<S, E>>(attrs),
    decreases attrs.len(),
{
    if attrs.len() > 0 {
        let init = attrs.drop_last();
        assert forall|i: int| 0 <= i < init.len() implies !(#[trigger] init[i] is Nixcfg) by {
            assert(init[i] == attrs[i]);
        }
        lemma_rewrite_without_nixcfg::<A, X, S, E>(init);
        assert(!(attrs[attrs.len() - 1] is Nixcfg));
        assert(init.push(attrs.last()) =~= attrs);
    } else {
        assert(attrs =~= Seq::<AttrModel<A, X, S, E>>::empty());
    }
}

/// Rewriting a rewritten list changes nothing.
pub proof fn law_rewrite_idempotent<A, X, S, E>(attrs: Seq<AttrModel<A, X, S, E>>)
    ensures
        rewrite_attrs_model(attrs) is Ok ==> rewrite_attrs_model(rewrite_attrs_model(attrs)->Ok_0)
            == rewrite_attrs_model(attrs),
{
    law_rewrite_leaves_no_nixcfg(attrs);
    if rewrite_attrs_model(attrs) is Ok {
        lemma_rewrite_without_nixcfg::<A, X, S, E>(rewrite_attrs_model(attrs)->Ok_0);
    }
}

/// Whether an item of a `#[nixcfg(...)]` list cannot be rewritten.
pub open spec fn meta_fails<X, S, E>(m: NixcfgMeta<X, S>) -> bool {
    meta_arg::<X, S, E>(m) is Err
}

/// Whether an attribute cannot be rewritten: its argument list does not
/// parse, or one of its items cannot be rewritten.
pub open spec fn attr_fails<A, X, S, E>(a: AttrModel<A, X, S, E>) -> bool {
    match a {
        AttrModel::Nixcfg(Err(_)) => true,
        AttrModel::Nixcfg(Ok(metas)) => exists|j: int|
            0 <= j < metas.len() && meta_fails::<X, S, E>(#[trigger] metas[j]),
        _ => false,
    }
}

/// The number of `#[nixcfg()]` attributes with an empty list.
pub open spec fn empty_nixcfg_count<A, X, S, E>(attrs: Seq<AttrModel<A, X, S, E>>) -> nat
    decreases attrs.len(),
{
    if attrs.len() == 0 {
        0
    } else {
        empty_nixcfg_count(attrs.drop_last()) + match attrs.last() {
            AttrModel::Nixcfg(Ok(metas)) => if metas.len() == 0 {
                1nat
            } else {
                0nat
            },
            _ => 0nat,
        }
    }
}

/// A `#[nixcfg(...)]` list is refused exactly where one of its items is.
pub proof fn law_meta_args_fail_iff<X, S, E>(metas: Seq<NixcfgMeta<X, S>>)
    ensures
        meta_args::<X, S, E>(metas) is Err <==> exists|j: int|
            0 <= j < metas.len() && meta_fails::<X, S, E>(#[trigger] metas[j]),
    decreases metas.len(),
{
    if metas.len() > 0 {
        let init = metas.drop_last();
        law_meta_args_fail_iff::<X, S, E>(init);
        if exists|j: int| 0 <= j < init.len() && meta_fails::<X, S, E>(#[trigger] init[j]) {
            let j = choose|j: int| 0 <= j < init.len() && meta_fails::<X, S, E>(#[trigger] init[j]);
            assert(metas[j] == init[j]);
        }
        if exists|j: int| 0 <= j < metas.len() && meta_fails::<X, S, E>(#[trigger] metas[j]) {
            let j = choose|j: int| 0 <= j < metas.len() && meta_fails::<X, S, E>(#[trigger] metas[j]);
            if j < init.len() {
                assert(metas[j] == init[j]);
            }
        }
    }
}

/// Rewriting an attribute list fails exactly where one of its attributes
/// cannot be rewritten.
pub proof fn law_rewrite_attrs_fail_iff<A, X, S, E>(attrs: Seq<AttrModel<A, X, S, E>>)
    ensures
        rewrite_attrs_model(attrs) is Err <==> exists|i: int|
            0 <= i < attrs.len() && attr_fails(#[trigger] attrs[i]),
    decreases attrs.len(),
{
    if attrs.len() > 0 {
        let init = attrs.drop_last();
        law_rewrite_attrs_fail_iff(init);
        match attrs.last() {
            AttrModel::Nixcfg(Ok(metas)) => {
                law_meta_args_fail_iff::<X, S, E>(metas);
            },
            _ => {},
        }
        if exists|i: int| 0 <= i < init.len() && attr_fails(#[trigger] init[i]) {
            let i = choose|i: int| 0 <= i < init.len() && attr_fails(#[trigger] init[i]);
            assert(attrs[i] == init[i]);
        }
        if exists|i: int| 0 <= i < attrs.len() && attr_fails(#[trigger] attrs[i]) {
            let i = choose|i: int| 0 <= i < attrs.len() && attr_fails(#[trigger] attrs[i]);
            if i < init.len() {
                assert(attrs[i] == init[i]);
            }
        }
    }
}

/// A rewritten list has one attribute for each attribute of the original,
/// but for each `#[nixcfg()]` with an empty list, which is dropped.
pub proof fn law_rewrite_attrs_length<A, X, S, E>(attrs: Seq<AttrModel<A, X, S, E>>)
    ensures
        rewrite_attrs_model(attrs) is Ok ==> rewrite_attrs_model(attrs)->Ok_0.len() == attrs.len()
            - empty_nixcfg_count(attrs),
    decreases attrs.len(),
{
    if attrs.len() > 0 {
        law_rewrite_attrs_length(attrs.drop_last());
        match attrs.last() {
            AttrModel::Nixcfg(Ok(metas)) => {
                law_one_argument_per_item::<X, S, E>(metas);
            },
            _ => {},
        }
    }
}

/// What one attribute becomes when its list is rewritten: an attribute that
/// is not `#[nixcfg]` stays; `#[nixcfg(m1, .., mn)]` becomes the single
/// `#[schemars(extend(..))]` of its arguments where n > 0, and nothing where
/// n == 0 (or where it cannot be rewritten).
pub open spec fn attr_image<A, X, S, E>(a: AttrModel<A, X, S, E>) -> Seq<AttrModel<A, X, S, E>> {
    match a {
        AttrModel::Nixcfg(Ok(metas)) => match meta_args::<X, S, E>(metas) {
            Ok(args) => if args.len() == 0 {
                Seq::empty()
            } else {
                seq![AttrModel::Extend(args)]
            },
            Err(_) => Seq::empty(),
        },
        AttrModel::Nixcfg(Err(_)) => Seq::empty(),
        other => seq![other],
    }
}

/// The images of a list's attributes, one after the other.
pub open spec fn images<A, X, S, E>(attrs: Seq<AttrModel<A, X, S, E>>) -> Seq<AttrModel<A, X, S, E>>
    decreases attrs.len(),
{
    if attrs.len() == 0 {
        Seq::empty()
    } else {
        images(attrs.drop_last()) + attr_image(attrs.last())
    }
}

/// A rewritten list is, attribute by attribute and in order, the image of
/// each attribute of the original, and no attribute of the original failed.
pub proof fn law_rewrite_attrs_elementwise<A, X, S, E>(attrs: Seq<AttrModel<A, X, S, E>>)
    ensures
        rewrite_attrs_model(attrs) is Ok ==> {
            &&& rewrite_attrs_model(attrs)->Ok_0 == images(attrs)
            &&& forall|i: int| 0 <= i < attrs.len() ==> !attr_fails(#[trigger] attrs[i])
        },
    decreases attrs.len(),
{
    law_rewrite_attrs_fail_iff(attrs);
    if attrs.len() > 0 {
        let init = attrs.drop_last();
        law_rewrite_attrs_elementwise(init);
        if rewrite_attrs_model(attrs) is Ok {
            let out = rewrite_attrs_model(init)->Ok_0;
            match attrs.last() {
                AttrModel::Nixcfg(Ok(metas)) => {
                    let args = meta_args::<X, S, E>(metas)->Ok_0;
                    if args.len() == 0 {
                        assert(out + Seq::<AttrModel<A, X, S, E>>::empty() =~= out);
                    } else {
                        assert(out.push(AttrModel::Extend(args)) =~= out + seq![AttrModel::Extend(args)]);
                    }
                },
                other => {
                    assert(out.push(other) =~= out + seq![other]);
                },
            }
        }
    } else {
        assert(rewrite_attrs_model(attrs)->Ok_0 =~= images(attrs));
    }
}

/// A flag names the extension whose key is `x-nixcfg-` followed by the flag,
/// and so does the key of a `key = value` item.
pub proof fn law_extension_key_is_prefixed_name(ident: Seq<char>)
    ensures
        flag_extension(ident) is Some ==> extension_key(flag_extension(ident)->Some_0)
            == "x-nixcfg-"@ + ident,
        key_value_extension(ident) is Some ==> extension_key(key_value_extension(ident)->Some_0)
            == "x-nixcfg-"@ + ident,
{
    reveal_strlit("x-nixcfg-");
    reveal_strlit("secret");
    reveal_strlit("port");
    reveal_strlit("path");
    reveal_strlit("skip");
    reveal_strlit("description");
    reveal_strlit("example");
    reveal_strlit("x-nixcfg-secret");
    reveal_strlit("x-nixcfg-port");
    reveal_strlit("x-nixcfg-path");
    reveal_strlit("x-nixcfg-skip");
    reveal_strlit("x-nixcfg-description");
    reveal_strlit("x-nixcfg-example");
    if ident == "secret"@ {
        assert("x-nixcfg-secret"@ =~= "x-nixcfg-"@ + ident);
    } else if ident == "port"@ {
        assert("x-nixcfg-port"@ =~= "x-nixcfg-"@ + ident);
    } else if ident == "path"@ {
        assert("x-nixcfg-path"@ =~= "x-nixcfg-"@ + ident);
    } else if ident == "skip"@ {
        assert("x-nixcfg-skip"@ =~= "x-nixcfg-"@ + ident);
    }
    if ident == "description"@ {
        assert("x-nixcfg-description"@ =~= "x-nixcfg-"@ + ident);
    } else if ident == "example"@ {
        assert("x-nixcfg-example"@ =~= "x-nixcfg-"@ + ident);
    }
}

/// The error of a rewriting outcome, if it is one.
pub open spec fn error_of<T, S, E>(r: Result<T, RewriteError<S, E>>) -> Option<RewriteError<S, E>> {
    match r {
        Ok(_) => None,
        Err(e) => Some(e),
    }
}

/// The error of the first attribute list, in order, that cannot be rewritten.
pub open spec fn first_error<A, X, S, E>(lists: Seq<Seq<AttrModel<A, X, S, E>>>) -> Option<
    RewriteError<S, E>,
>
    decreases lists.len(),
{
    if lists.len() == 0 {
        None
    } else {
        match first_error(lists.drop_last()) {
            Some(e) => Some(e),
            None => error_of(rewrite_attrs_model(lists.last())),
        }
    }
}

/// The attribute lists of fields, in declaration order.
pub open spec fn fields_lists<A, X, S, E>(f: FieldsModel<A, X, S, E>) -> Seq<
    Seq<AttrModel<A, X, S, E>>,
> {
    match f {
        FieldsModel::Named(l) => l,
        FieldsModel::Unnamed(l) => l,
        FieldsModel::Unit => Seq::empty(),
    }
}

/// The attribute lists of a variant: its own, then its fields'.
pub open spec fn variant_lists<A, X, S, E>(v: VariantModel<A, X, S, E>) -> Seq<
    Seq<AttrModel<A, X, S, E>>,
> {
    seq![v.attrs] + fields_lists(v.fields)
}

/// The attribute lists of the variants, variant after variant.
pub open spec fn variants_lists<A, X, S, E>(vs: Seq<VariantModel<A, X, S, E>>) -> Seq<
    Seq<AttrModel<A, X, S, E>>,
>
    decreases vs.len(),
{
    if vs.len() == 0 {
        Seq::empty()
    } else {
        variants_lists(vs.drop_last()) + variant_lists(vs.last())
    }
}

/// The attribute lists of an item in the order they are rewritten: the
/// fields' (for an enum, each variant's own before its fields'), then the
/// item's own.
pub open spec fn item_lists<A, X, S, E>(item: ItemModel<A, X, S, E>) -> Seq<
    Seq<AttrModel<A, X, S, E>>,
> {
    match item.data {
        DataModel::Struct(f) => fields_lists(f) + seq![item.attrs],
        DataModel::Enum(vs) => variants_lists(vs) + seq![item.attrs],
        DataModel::Union => seq![item.attrs],
    }
}

/// The first error of a sequence of lists is the error of a list before
/// which every list is rewritten.
pub proof fn law_first_error_is_first<A, X, S, E>(lists: Seq<Seq<AttrModel<A, X, S, E>>>)
    ensures
        first_error(lists) is Some ==> exists|i: int|
            0 <= i < lists.len() && error_of(rewrite_attrs_model(#[trigger] lists[i]))
                == first_error(lists) && forall|j: int|
                0 <= j < i ==> error_of(rewrite_attrs_model(#[trigger] lists[j])) is None,
        first_error(lists) is None ==> forall|j: int|
            0 <= j < lists.len() ==> error_of(rewrite_attrs_model(#[trigger] lists[j])) is None,
    decreases lists.len(),
{
    if lists.len() > 0 {
        let init = lists.drop_last();
        law_first_error_is_first(init);
        if first_error(init) is Some {
            let i = choose|i: int|
                0 <= i < init.len() && error_of(rewrite_attrs_model(#[trigger] init[i]))
                    == first_error(init) && forall|j: int|
                    0 <= j < i ==> error_of(rewrite_attrs_model(#[trigger] init[j])) is None;
            assert(lists[i] == init[i]);
            assert forall|j: int| 0 <= j < i implies error_of(
                rewrite_attrs_model(#[trigger] lists[j]),
            ) is None by {
                assert(lists[j] == init[j]);
            }
        } else {
            assert forall|j: int| 0 <= j < init.len() implies error_of(
                rewrite_attrs_model(#[trigger] lists[j]),
            ) is None by {
                assert(lists[j] == init[j]);
            }
            if first_error(lists) is Some {
                let i = lists.len() - 1;
                assert(error_of(rewrite_attrs_model(lists[i])) == first_error(lists));
            }
        }
    }
}

/// Rewriting lists one after the other fails with their first error.
proof fn lemma_rewrite_lists_error<A, X, S, E>(lists: Seq<Seq<AttrModel<A, X, S, E>>>)
    ensures
        error_of(rewrite_lists_model(lists)) == first_error(lists),
    decreases lists.len(),
{
    if lists.len() > 0 {
        lemma_rewrite_lists_error(lists.drop_last());
    }
}

/// The first error of two sequences of lists, one after the other.
proof fn lemma_first_error_concat<A, X, S, E>(
    a: Seq<Seq<AttrModel<A, X, S, E>>>,
    b: Seq<Seq<AttrModel<A, X, S, E>>>,
)
    ensures
        first_error(a + b) == (match first_error(a) {
            Some(e) => Some(e),
            None => first_error(b),
        }),
    decreases b.len(),
{
    if b.len() == 0 {
        assert(a + b =~= a);
    } else {
        lemma_first_error_concat(a, b.drop_last());
        assert((a + b).drop_last() =~= a + b.drop_last());
        assert((a + b).last() == b.last());
    }
}

/// The first error of a single list is that list's error.
proof fn lemma_first_error_one<A, X, S, E>(attrs: Seq<AttrModel<A, X, S, E>>)
    ensures
        first_error(seq![attrs]) == error_of(rewrite_attrs_model(attrs)),
{
    let one = seq![attrs];
    assert(one.drop_last() =~= Seq::<Seq<AttrModel<A, X, S, E>>>::empty());
    assert(first_error(one.drop_last()) is None);
    assert(one.last() == attrs);
}

/// Fields fail with the first error among their lists.
proof fn lemma_rewrite_fields_error<A, X, S, E>(f: FieldsModel<A, X, S, E>)
    ensures
        error_of(rewrite_fields_model(f)) == first_error(fields_lists(f)),
{
    lemma_rewrite_lists_error(fields_lists(f));
}

/// A variant fails with the first error among its own attributes and then
/// its fields'.
proof fn lemma_rewrite_variant_error<A, X, S, E>(v: VariantModel<A, X, S, E>)
    ensures
        error_of(rewrite_variant_model(v)) == first_error(variant_lists(v)),
{
    let one = seq![v.attrs];
    lemma_first_error_concat(one, fields_lists(v.fields));
    lemma_first_error_one(v.attrs);
    lemma_rewrite_fields_error(v.fields);
}

/// Variants fail with the first error among their lists, variant after variant.
proof fn lemma_rewrite_variants_error<A, X, S, E>(vs: Seq<VariantModel<A, X, S, E>>)
    ensures
        error_of(rewrite_variants_model(vs)) == first_error(variants_lists(vs)),
    decreases vs.len(),
{
    if vs.len() > 0 {
        lemma_rewrite_variants_error(vs.drop_last());
        lemma_rewrite_variant_error(vs.last());
        lemma_first_error_concat(variants_lists(vs.drop_last()), variant_lists(vs.last()));
    }
}

/// Rewriting an item fails with the first error among its attribute lists
/// in the order of [`item_lists`], or, for a union, with the union error.
pub proof fn law_rewrite_error_order<A, X, S, E>(item: ItemModel<A, X, S, E>)
    ensures
        error_of(rewrite_model(item)) == (if item.data is Union {
            Some(RewriteError::Union(item.span))
        } else {
            first_error(item_lists(item))
        }),
{
    let top = seq![item.attrs];
    lemma_first_error_one(item.attrs);
    match item.data {
        DataModel::Struct(f) => {
            lemma_rewrite_fields_error(f);
            lemma_first_error_concat(fields_lists(f), top);
        },
        DataModel::Enum(vs) => {
            lemma_rewrite_variants_error(vs);
            lemma_first_error_concat(variants_lists(vs), top);
        },
        DataModel::Union => {},
    }
}

/// Whether `g` is the fields `f` with each attribute list rewritten: the
/// same kind of fields, as many, each list the images of the original's.
pub open spec fn fields_rewritten<A, X, S, E>(
    f: FieldsModel<A, X, S, E>,
    g: FieldsModel<A, X, S, E>,
) -> bool {
    &&& (f is Named <==> g is Named)
    &&& (f is Unnamed <==> g is Unnamed)
    &&& (f is Unit <==> g is Unit)
    &&& fields_lists(g).len() == fields_lists(f).len()
    &&& forall|i: int|
        0 <= i < fields_lists(f).len() ==> #[trigger] fields_lists(g)[i] == images(fields_lists(f)[i])
}

/// Lists rewritten one after the other are, list by list, the images of the
/// originals.
proof fn lemma_rewrite_lists_images<A, X, S, E>(lists: Seq<Seq<AttrModel<A, X, S, E>>>)
    ensures
        rewrite_lists_model(lists) is Ok ==> {
            let out = rewrite_lists_model(lists)->Ok_0;
            &&& out.len() == lists.len()
            &&& forall|i: int| 0 <= i < lists.len() ==> #[trigger] out[i] == images(lists[i])
        },
    decreases lists.len(),
{
    if lists.len() > 0 {
        let init = lists.drop_last();
        lemma_rewrite_lists_images(init);
        law_rewrite_attrs_elementwise(lists.last());
        if rewrite_lists_model(lists) is Ok {
            let out = rewrite_lists_model(lists)->Ok_0;
            assert forall|i: int| 0 <= i < lists.len() implies #[trigger] out[i] == images(lists[i]) by {
                if i < init.len() {
                    assert(init[i] == lists[i]);
                }
            }
        }
    }
}

/// Rewritten fields keep their kind and number, each list the images of the original's.
proof fn lemma_rewrite_fields_shape<A, X, S, E>(f: FieldsModel<A, X, S, E>)
    ensures
        rewrite_fields_model(f) is Ok ==> fields_rewritten(f, rewrite_fields_model(f)->Ok_0),
{
    lemma_rewrite_lists_images(fields_lists(f));
}

/// Rewritten variants keep their number, each its attributes the images of
/// the original's and its fields rewritten.
proof fn lemma_rewrite_variants_shape<A, X, S, E>(vs: Seq<VariantModel<A, X, S, E>>)
    ensures
        rewrite_variants_model(vs) is Ok ==> {
            let out = rewrite_variants_model(vs)->Ok_0;
            &&& out.len() == vs.len()
            &&& forall|k: int|
                0 <= k < vs.len() ==> (#[trigger] out[k]).attrs == images(vs[k].attrs)
                    && fields_rewritten(vs[k].fields, out[k].fields)
        },
    decreases vs.len(),
{
    if vs.len() > 0 {
        let init = vs.drop_last();
        lemma_rewrite_variants_shape(init);
        law_rewrite_attrs_elementwise(vs.last().attrs);
        lemma_rewrite_fields_shape(vs.last().fields);
        if rewrite_variants_model(vs) is Ok {
            let out = rewrite_variants_model(vs)->Ok_0;
            assert forall|k: int| 0 <= k < vs.len() implies (#[trigger] out[k]).attrs == images(
                vs[k].attrs,
            ) && fields_rewritten(vs[k].fields, out[k].fields) by {
                if k < init.len() {
                    assert(init[k] == vs[k]);
                }
            }
        }
    }
}

/// Rewriting keeps the shape of an item: its span; its own attributes become
/// the images of its original attributes, whatever its body; a struct stays a
/// struct with its fields rewritten; an enum keeps its variants, each its
/// attributes the images of the original's and its fields rewritten; a union
/// is never rewritten.
pub proof fn law_rewrite_keeps_shape<A, X, S, E>(item: ItemModel<A, X, S, E>)
    ensures
        rewrite_model(item) is Ok ==> {
            let out = rewrite_model(item)->Ok_0;
            &&& out.span == item.span
            &&& out.attrs == images(item.attrs)
            &&& match item.data {
                DataModel::Struct(f) => out.data is Struct && fields_rewritten(f, out.data->Struct_0),
                DataModel::Enum(vs) => {
                    &&& out.data is Enum
                    &&& out.data->Enum_0.len() == vs.len()
                    &&& forall|k: int|
                        0 <= k < vs.len() ==> (#[trigger] out.data->Enum_0[k]).attrs == images(
                            vs[k].attrs,
                        ) && fields_rewritten(vs[k].fields, out.data->Enum_0[k].fields)
                },
                DataModel::Union => false,
            }
        },
{
    law_rewrite_attrs_elementwise(item.attrs);
    match item.data {
        DataModel::Struct(f) => {
            lemma_rewrite_fields_shape(f);
        },
        DataModel::Enum(vs) => {
            lemma_rewrite_variants_shape(vs);
        },
        DataModel::Union => {},
    }
}

} // verus!

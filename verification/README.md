# raui_core

The core of a retained-mode UI library, written in Verus: functions state
in their contracts what they do, and Verus proves it. What lives in shared
state (data behind a lock, the application's change flag, channels) and
what sits inside boxed values of any type is not described by the
contracts; of those only what holds of every outcome is stated.

## Layout

- `src/` — the verified library.
  - `text`, `widget_id`, `widget_id_common`, `widget_ref` — widget
    identifiers (`type:part/part`), their common roots, and shared
    references to them.
  - `props`, `prefab`, `state`, `messenger`, `signals`, `queues`,
    `application`, `data_binding` — typed property bags, widget state,
    messages (and the queues that hold them per widget, in order) and
    signals, the application's change flag and rebuild decision, and data
    shared with the UI.
  - `view_model` — bindings of view-model properties to widgets, and the
    common root from which a notified change rebuilds.
  - `input_field`, `button`, `navigation`, `containers`, `interactions`,
    `component`, `units` — the rules of text inputs (accepted texts, their
    normal form, editing), buttons, navigation jumps, tabs and tooltips.
  - `identity` — the keys, paths and identifiers that widgets get in the
    tree, and the shared properties passed down to them.
  - `tree` — the widget tree and its processing: components rendered
    until only units remain, each with its identifier, state, messages and
    shared properties; `application` drives it frame by frame (which
    states survive a rebuild, which messages are delivered or dropped).
  - `interactions` — the navigation engine: containers, items and their
    owners, buttons, text inputs, the selected chain and the focused
    input, with the notices each change sends; list jumps; and where each
    navigation command and pointer action goes.
  - `layout` — finding the layout of a widget or of its nearest ancestor.
  - `html` — rendering a widget tree as an indented HTML document.
- `tests/` — tests of the library, run against the compiled crate.
- `app/` — what stays outside the proofs: floating-point number text for
  text inputs and the screen geometry, address-based keys, JSON forms of
  plain property types, and a frame of the application loop.

Laws of the library are public proof functions named `law_*`.

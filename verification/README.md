# uznav

A verified core for turn-by-turn navigation: it binds location fixes to a route, decides
when the user stands still, has left the route or has passed a step, and renders a smoothly
moving position between fixes.

The library under `src/` is written in Verus. Every function states what it returns in its
contract, and the laws that hold of the whole are public proof functions named `law_...`.

| Module | What it holds |
| --- | --- |
| `binary64`, `rounding`, `arithmetic`, `arithmetic_laws`, `rounding_bounds` | IEEE 754 double precision on encodings: order, rounding, the four operations, their laws and the bounds of their errors |
| `time` | timestamps and spans |
| `models`, `trip` | routes, fixes and the state of a trip |
| `envelope_tree` | the spatial tree of the `rstar` crate |
| `uzmatch` | the matching core: location class, standing, speed filter, projection onto the route, candidates carried from fix to fix, and the rendered motion |
| `step_advance` | the conditions under which a trip advances to the next step, and their plain data |
| `step_progress` | where a position on the route is within a step |
| `controller`, `session` | the navigation controller and sessions around it |

Distances and bearings on the globe, exponentials and logarithms are floating-point
functions that the library does not compute. It tells its host what to measure, and takes
the measurements as plain values: see `RouteSnapIndex::segments_to_measure`,
`UzmatchState::transitions_to_measure` and `StepCondition::inquiry`.

`app/` is such a host: it measures with the `geo` crate, drives a trip, and serialises
states. `tests/` drives the library in the same way on concrete routes.

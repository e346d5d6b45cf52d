# route_group

Groups of HTTP services that share guards and middlewares, written and verified in Verus.

A `Group` collects services, routes, match guards and middlewares. Registering it in a
`ServiceConfig` mounts every service of the group: at its own paths, behind the guards of the
group and then its own, wrapped in the middlewares of the group, the one added last outermost.

* `src/group.rs`: groups and their registration
* `src/config.rs`, `src/factory.rs`: the list of services under construction, and what can be
  registered in it
* `src/resource.rs`, `src/route.rs`, `src/guard.rs`: what a group is made of
* `src/service.rs`: requests, responses and the boxed service factories of `actix_service`
* `src/header.rs`, `src/middleware.rs`: header maps of `actix_http`, and the labelling of
  responses
* `src/laws.rs`: what holds of groups as a whole
* `app/`: turns transforms of `actix_service` into middlewares of a group

`chrono` is held at a version whose durations are those of `time`, as `actix-http` needs them.
